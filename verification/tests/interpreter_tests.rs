use interpreter::interact::{demodulate_text, G, StepOutcome};
use interpreter::term::{InterpError, Prim, Term};

#[test]
fn test_statelessdraw() {
    let mut g = G::new();
    g.define(
        "statelessdraw",
        "ap ap c ap ap b b ap ap b ap b ap cons 0 ap ap c ap ap b b cons ap ap c cons nil ap ap c ap ap b cons ap ap c cons nil nil",
    )
    .unwrap();

    let res = g.interact("statelessdraw", "nil", 1, 0).unwrap();
    assert_eq!(res.state, "nil");
    assert_eq!(res.images, vec![vec![(1, 0)]]);
}

#[test]
fn test() {
    for tc in vec![
        ("ap ap add 1 2", "3"),
        ("ap ap add 1 ap ap add 2 3", "6"),
        ("ap ap t 1 :1", "1"),
        ("ap ap f :1 1", "1"),
        ("( )", "nil"),
        ("( 1 , 2 )", "ap ap cons 1 ap ap cons 2 nil"),
        ("ap car ( 1 , 2 )", "1"),
        ("ap ap ap s mul ap add 1 6", "42"),
        ("ap ap ap c add 1 2", "3"),
        ("ap ap ap c i 1 ap i ap add 1", "2"),
        ("ap ap div 4 2", "2"),
        ("ap ap div 4 3", "1"),
        ("ap ap div 4 4", "1"),
        ("ap ap div 4 5", "0"),
        ("ap ap div 5 2", "2"),
        ("ap ap div 6 -2", "-3"),
        ("ap ap div 5 -3", "-1"),
        ("ap ap div -5 3", "-1"),
        ("ap ap div -5 -3", "1"),
    ] {
        let g = G::new();

        let e1 = g.eval_data(tc.0).unwrap();
        let e2 = g.eval_data(tc.1).unwrap();

        assert_eq!(e1, e2);
    }
}

#[test]
fn test_demod() {
    let g = G::new();

    for tc in [
        ("110110000111011111100001001111110100110000", "( 1 , 81740 )"),
        ("010", "0"),
        ("00", "nil"),
        ("1101000", "( 0 )"),
        ("01100001", "1"),
        ("10100001", "-1"),
    ]
    .iter()
    {
        let bin = g.modulate_text(tc.1).unwrap();

        assert_eq!(tc.0, bin);
    }
}

#[test]
fn test_modulate() {
    let g = G::new();

    for tc in [
        ("110110000111011111100001001111110100110000", "( 1 , 81740 )"),
        ("010", "0"),
        ("00", "nil"),
        ("1101000", "( 0 )"),
        ("01100001", "1"),
        ("10100001", "-1"),
    ]
    .iter()
    {
        let e1 = demodulate_text(tc.0).unwrap();
        let e2 = g.parse_term(tc.1).unwrap();

        assert_eq!(e1, e2);
    }
}

#[test]
fn round_trip_numbers() {
    let g = G::new();
    for n in [
        0i64,
        1,
        -1,
        16,
        255,
        -256,
        81740,
        9007199254740992,   // 2^53
        -9007199254740992,  // -2^53
        i64::MAX,
        i64::MIN + 1,
    ] {
        let text = n.to_string();
        let bits = g.modulate_text(&text).unwrap();
        let back = demodulate_text(&bits).unwrap();
        assert_eq!(back, Term::Num(n));
    }
}

#[test]
fn round_trip_encodings() {
    let g = G::new();
    for text in [
        "nil",
        "( )",
        "( 0 )",
        "( 1 , 81740 )",
        "( 1 , ( 2 , 3 ) , nil , -7 )",
        "ap ap cons 0 ap ap cons ap ap cons 0 nil ap ap cons 0 ap ap cons nil nil",
    ] {
        let bits = g.modulate_text(text).unwrap();
        let value = demodulate_text(&bits).unwrap();
        // encode(decode(encode(v))) = encode(v)
        let canon = g.eval_data(text).unwrap();
        assert_eq!(value, canon);
        let bits2 = {
            let mut h = G::new();
            h.define("x0", text).unwrap();
            h.modulate_text("x0").unwrap()
        };
        assert_eq!(bits, bits2);
    }
}

#[test]
fn modulate_zero_is_canonical() {
    let g = G::new();
    assert_eq!(g.modulate_text("0").unwrap(), "010");
    assert_eq!(demodulate_text("010").unwrap(), Term::Num(0));
}

#[test]
fn combinator_laws_on_values() {
    let g = G::new();
    // b and c on concrete arguments
    assert_eq!(g.eval_data("ap ap ap b neg neg 3").unwrap(), Term::Num(3));
    assert_eq!(g.eval_data("ap ap ap c div 2 10").unwrap(), Term::Num(5));
    // cdr (cons a b) = b, isnil on both shapes
    assert_eq!(g.eval_data("ap cdr ( 1 , 2 )").unwrap(), g.eval_data("( 2 )").unwrap());
    assert_eq!(g.eval_term("ap isnil nil").unwrap(), Term::Op(Prim::T));
    assert_eq!(g.eval_term("ap isnil ( 1 )").unwrap(), Term::Op(Prim::F));
    // eq, lt, neg
    assert_eq!(g.eval_term("ap ap eq 3 3").unwrap(), Term::Op(Prim::T));
    assert_eq!(g.eval_term("ap ap lt 3 3").unwrap(), Term::Op(Prim::F));
    assert_eq!(g.eval_term("ap neg 5").unwrap(), Term::Num(-5));
}

#[test]
fn error_kinds() {
    let mut g = G::new();
    // unknown identifier
    assert_eq!(g.parse_term("galaxy").unwrap_err(), InterpError::Parse);
    // the reserved tokens are not reducible
    assert_eq!(g.parse_term("mod").unwrap_err(), InterpError::Parse);
    assert_eq!(g.parse_term("dem").unwrap_err(), InterpError::Parse);
    // forcing a number out of a partial application
    assert_eq!(g.eval_data("ap ap add 1 nil").unwrap_err(), InterpError::Eval);
    // demanding a free variable
    assert_eq!(g.eval_data(":1").unwrap_err(), InterpError::Eval);
    // a malformed bit-string
    assert_eq!(demodulate_text("1").unwrap_err(), InterpError::Codec);
    // a self-referential definition runs out of budget
    g.load_library(":1 = ap ap add 1 :1").unwrap();
    let t = g.parse_term(":1").unwrap();
    assert_eq!(
        interpreter::eval::eval(&g.defs, &t, 100).unwrap_err(),
        InterpError::Fuel
    );
    // an unknown interact flag
    g.define("x9", "ap t ap t ( 2 , nil , nil )").unwrap();
    assert_eq!(g.interact("x9", "nil", 0, 0).unwrap_err(), InterpError::BadFlag);
}

#[test]
fn interact_send_round() {
    let mut g = G::new();
    // a protocol that always asks the server, sending nil
    g.define("x7", "ap t ap t ( 1 , nil , nil )").unwrap();
    assert_eq!(g.interact("x7", "nil", 0, 0).unwrap_err(), InterpError::NeedsSend);
    match g.interact_step("x7", "nil", "ap ap vec 0 0").unwrap() {
        StepOutcome::Send(state, payload) => {
            assert_eq!(state, "nil");
            assert_eq!(payload, "00");
        }
        _ => panic!("expected a send"),
    }
}

#[test]
fn images_are_sorted() {
    let mut g = G::new();
    g.define(
        "x8",
        "ap t ap t ( 0 , nil , ( ( ap ap vec 2 1 , ap ap vec 1 1 , ap ap vec 1 0 ) , ( ) ) )",
    )
    .unwrap();
    let res = g.interact("x8", "nil", 0, 0).unwrap();
    assert_eq!(res.state, "nil");
    assert_eq!(res.images, vec![vec![(1, 0), (1, 1), (2, 1)], vec![]]);
    let im = res.image(0);
    assert_eq!(im.count(), 3);
    assert_eq!((im.point(0).x, im.point(0).y), (1, 0));
}

#[test]
fn library_forward_references() {
    let mut g = G::new();
    g.load_library("a1 = ap ap add 1 a2\na2 = 41").unwrap();
    assert_eq!(g.eval_data("a1").unwrap(), Term::Num(42));
    // a malformed line leaves the environment unchanged
    let mut h = G::new();
    assert_eq!(h.load_library("a1 = 1\nbroken-line").unwrap_err(), InterpError::Parse);
    assert_eq!(h.parse_term("a1").unwrap_err(), InterpError::Parse);
}

#[test]
fn state_canonicalization() {
    let mut g = G::new();
    // the new state is re-rendered as a canonical cons/nil/number tree
    g.define("x6", "ap t ap t ( 0 , ( 5 ) , nil )").unwrap();
    let res = g.interact("x6", "nil", 0, 0).unwrap();
    assert_eq!(res.state, "ap ap cons 5 nil");
    assert_eq!(res.image_count(), 0);
}
