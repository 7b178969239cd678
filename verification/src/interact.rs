//! The interpreter facade and the `interact` driver: an environment of named
//! definitions, one evaluation round of a protocol against a state and a
//! click, and the result accessors.
//!
//! A round either finishes with a new state and a list of images, or asks
//! for one round-trip to the remote server. The network itself stands
//! outside this library: the host performs the send and hands the decoded
//! reply back in.

use vstd::prelude::*;
use crate::term::{cons_cell, is_data, InterpError, Prim, Term};
use crate::eval::{eval, eval_spec, Ev};
use crate::codec::{data_fuel, demod_spec, demodulate, lemma_decode_encode, mod_bits, modulate_data};
use crate::parser::{parse_at, parse_spec, seq_views, split_chars, split_from, tokens_of};
use crate::text::{
    bit_chars, bits_to_text, chars_bits, data_text, data_to_text, num_text, push_num, str_chars,
    text_to_bits,
};
use vstd::string::StringExecFns;

verus! {

/// Outcome of forcing a structure out of a term.
pub enum Forced<T> {
    /// The structure, fully demanded.
    Val(T),
    /// A value of the wrong shape stood in the way.
    Stuck,
    /// The budget ran out.
    Out,
}

/// Forces a term to a list: `nil` ends it, a pair contributes its raw head
/// and continues in its tail.
pub open spec fn force_list_spec(env: Seq<Term>, t: Term, fuel: nat) -> Forced<Seq<Term>>
    decreases fuel,
{
    if fuel == 0 {
        Forced::Out
    } else {
        match eval_spec(env, t, fuel) {
            Ev::Out => Forced::Out,
            Ev::Stuck => Forced::Stuck,
            Ev::Val(v) => if v == Term::Op(Prim::Nil) {
                Forced::Val(Seq::empty())
            } else {
                match v {
                    Term::Ap(l, tl) => match *l {
                        Term::Ap(c, hd) => if *c == Term::Op(Prim::Cons) {
                            match force_list_spec(env, *tl, (fuel - 1) as nat) {
                                Forced::Val(s) => Forced::Val(seq![*hd] + s),
                                e => e,
                            }
                        } else {
                            Forced::Stuck
                        },
                        _ => Forced::Stuck,
                    },
                    _ => Forced::Stuck,
                }
            },
        }
    }
}

/// Forces a term all the way down to a data value.
pub open spec fn force_data_spec(env: Seq<Term>, t: Term, fuel: nat) -> Forced<Term>
    decreases fuel,
{
    if fuel == 0 {
        Forced::Out
    } else {
        match eval_spec(env, t, fuel) {
            Ev::Out => Forced::Out,
            Ev::Stuck => Forced::Stuck,
            Ev::Val(v) => match v {
                Term::Num(_) => Forced::Val(v),
                Term::Op(p) => if p == Prim::Nil {
                    Forced::Val(v)
                } else {
                    Forced::Stuck
                },
                Term::Ap(l, tl) => match *l {
                    Term::Ap(c, hd) => if *c == Term::Op(Prim::Cons) {
                        match force_data_spec(env, *hd, (fuel - 1) as nat) {
                            Forced::Val(h) => match force_data_spec(env, *tl, (fuel - 1) as nat) {
                                Forced::Val(t2) => Forced::Val(cons_cell(h, t2)),
                                e => e,
                            },
                            e => e,
                        }
                    } else {
                        Forced::Stuck
                    },
                    _ => Forced::Stuck,
                },
                _ => Forced::Stuck,
            },
        }
    }
}

/// A forced data value is data.
pub proof fn lemma_force_data_is_data(env: Seq<Term>, t: Term, fuel: nat)
    ensures
        force_data_spec(env, t, fuel) matches Forced::Val(d) ==> is_data(d),
    decreases fuel,
{
    if fuel > 0 {
        match eval_spec(env, t, fuel) {
            Ev::Val(v) => match v {
                Term::Ap(l, tl) => match *l {
                    Term::Ap(c, hd) => {
                        lemma_force_data_is_data(env, *hd, (fuel - 1) as nat);
                        lemma_force_data_is_data(env, *tl, (fuel - 1) as nat);
                    },
                    _ => {},
                },
                _ => {},
            },
            _ => {},
        }
    }
}

/// Forces a term to an integer pair `cons x y`.
pub open spec fn point_spec(env: Seq<Term>, t: Term, fuel: nat) -> Forced<(i64, i64)> {
    match eval_spec(env, t, fuel) {
        Ev::Out => Forced::Out,
        Ev::Stuck => Forced::Stuck,
        Ev::Val(v) => match v {
            Term::Ap(l, py) => match *l {
                Term::Ap(c, px) => if *c == Term::Op(Prim::Cons) {
                    match eval_spec(env, *px, fuel) {
                        Ev::Out => Forced::Out,
                        Ev::Stuck => Forced::Stuck,
                        Ev::Val(xv) => match xv {
                            Term::Num(x) => match eval_spec(env, *py, fuel) {
                                Ev::Out => Forced::Out,
                                Ev::Stuck => Forced::Stuck,
                                Ev::Val(yv) => match yv {
                                    Term::Num(y) => Forced::Val((x, y)),
                                    _ => Forced::Stuck,
                                },
                            },
                            _ => Forced::Stuck,
                        },
                    }
                } else {
                    Forced::Stuck
                },
                _ => Forced::Stuck,
            },
            _ => Forced::Stuck,
        },
    }
}

/// Forces a term to a list of integer pairs.
pub open spec fn point_list_spec(env: Seq<Term>, t: Term, fuel: nat) -> Forced<Seq<(i64, i64)>>
    decreases fuel,
{
    if fuel == 0 {
        Forced::Out
    } else {
        match eval_spec(env, t, fuel) {
            Ev::Out => Forced::Out,
            Ev::Stuck => Forced::Stuck,
            Ev::Val(v) => if v == Term::Op(Prim::Nil) {
                Forced::Val(Seq::empty())
            } else {
                match v {
                    Term::Ap(l, tl) => match *l {
                        Term::Ap(c, hd) => if *c == Term::Op(Prim::Cons) {
                            match point_spec(env, *hd, (fuel - 1) as nat) {
                                Forced::Out => Forced::Out,
                                Forced::Stuck => Forced::Stuck,
                                Forced::Val(p) => match point_list_spec(
                                    env,
                                    *tl,
                                    (fuel - 1) as nat,
                                ) {
                                    Forced::Val(s) => Forced::Val(seq![p] + s),
                                    e => e,
                                },
                            }
                        } else {
                            Forced::Stuck
                        },
                        _ => Forced::Stuck,
                    },
                    _ => Forced::Stuck,
                }
            },
        }
    }
}

/// Forces a term to a list of lists of integer pairs: the images of a
/// finished round.
pub open spec fn images_spec(env: Seq<Term>, t: Term, fuel: nat) -> Forced<Seq<Seq<(i64, i64)>>>
    decreases fuel,
{
    if fuel == 0 {
        Forced::Out
    } else {
        match eval_spec(env, t, fuel) {
            Ev::Out => Forced::Out,
            Ev::Stuck => Forced::Stuck,
            Ev::Val(v) => if v == Term::Op(Prim::Nil) {
                Forced::Val(Seq::empty())
            } else {
                match v {
                    Term::Ap(l, tl) => match *l {
                        Term::Ap(c, hd) => if *c == Term::Op(Prim::Cons) {
                            match point_list_spec(env, *hd, (fuel - 1) as nat) {
                                Forced::Out => Forced::Out,
                                Forced::Stuck => Forced::Stuck,
                                Forced::Val(p) => match images_spec(env, *tl, (fuel - 1) as nat) {
                                    Forced::Val(s) => Forced::Val(seq![p] + s),
                                    e => e,
                                },
                            }
                        } else {
                            Forced::Stuck
                        },
                        _ => Forced::Stuck,
                    },
                    _ => Forced::Stuck,
                }
            },
        }
    }
}

/// Executable counterpart of `force_data_spec`.
pub fn force_data(env: &Vec<Term>, t: &Term, fuel: u64) -> (res: Result<Term, InterpError>)
    ensures
        match force_data_spec(env@, *t, fuel as nat) {
            Forced::Val(d) => res == Ok::<Term, InterpError>(d),
            Forced::Stuck => res == Err::<Term, InterpError>(InterpError::Eval),
            Forced::Out => res == Err::<Term, InterpError>(InterpError::Fuel),
        },
    decreases fuel,
{
    if fuel == 0 {
        return Err(InterpError::Fuel);
    }
    match eval(env, t, fuel) {
        Err(e) => Err(e),
        Ok(v) => match v {
            Term::Num(n) => Ok(Term::Num(n)),
            Term::Op(p) => if arity_is_nil(p) {
                Ok(Term::Op(Prim::Nil))
            } else {
                Err(InterpError::Eval)
            },
            Term::Ap(l, tl) => match *l {
                Term::Ap(c, hd) => match *c {
                    Term::Op(Prim::Cons) => match force_data(env, &*hd, fuel - 1) {
                        Err(e) => Err(e),
                        Ok(h) => match force_data(env, &*tl, fuel - 1) {
                            Err(e) => Err(e),
                            Ok(t2) => Ok(
                                Term::Ap(
                                    Box::new(Term::Ap(Box::new(Term::Op(Prim::Cons)), Box::new(h))),
                                    Box::new(t2),
                                ),
                            ),
                        },
                    },
                    _ => Err(InterpError::Eval),
                },
                _ => Err(InterpError::Eval),
            },
            _ => Err(InterpError::Eval),
        },
    }
}

/// Is this primitive `nil`?
fn arity_is_nil(p: Prim) -> (r: bool)
    ensures
        r == (p == Prim::Nil),
{
    match p {
        Prim::Nil => true,
        _ => false,
    }
}

/// Executable counterpart of `force_list_spec`.
pub fn force_list(env: &Vec<Term>, t: &Term, fuel: u64) -> (res: Result<Vec<Term>, InterpError>)
    ensures
        match force_list_spec(env@, *t, fuel as nat) {
            Forced::Val(s) => res matches Ok(v) && v@ == s,
            Forced::Stuck => res == Err::<Vec<Term>, InterpError>(InterpError::Eval),
            Forced::Out => res == Err::<Vec<Term>, InterpError>(InterpError::Fuel),
        },
    decreases fuel,
{
    if fuel == 0 {
        return Err(InterpError::Fuel);
    }
    match eval(env, t, fuel) {
        Err(e) => Err(e),
        Ok(v) => match v {
            Term::Op(Prim::Nil) => {
                let out: Vec<Term> = Vec::new();
                proof {
                    assert(out@ =~= Seq::<Term>::empty());
                }
                Ok(out)
            },
            Term::Ap(l, tl) => match *l {
                Term::Ap(c, hd) => match *c {
                    Term::Op(Prim::Cons) => match force_list(env, &*tl, fuel - 1) {
                        Err(e) => Err(e),
                        Ok(mut rest) => {
                            let mut out: Vec<Term> = Vec::new();
                            out.push(*hd);
                            out.append(&mut rest);
                            proof {
                                match force_list_spec(env@, *t, fuel as nat) {
                                    Forced::Val(s) => {
                                        assert(out@ =~= s);
                                    },
                                    _ => {},
                                }
                            }
                            Ok(out)
                        },
                    },
                    _ => Err(InterpError::Eval),
                },
                _ => Err(InterpError::Eval),
            },
            _ => Err(InterpError::Eval),
        },
    }
}

/// Executable counterpart of `point_spec`.
fn force_point(env: &Vec<Term>, t: &Term, fuel: u64) -> (res: Result<(i64, i64), InterpError>)
    ensures
        match point_spec(env@, *t, fuel as nat) {
            Forced::Val(p) => res == Ok::<(i64, i64), InterpError>(p),
            Forced::Stuck => res == Err::<(i64, i64), InterpError>(InterpError::Eval),
            Forced::Out => res == Err::<(i64, i64), InterpError>(InterpError::Fuel),
        },
{
    match eval(env, t, fuel) {
        Err(e) => Err(e),
        Ok(v) => match v {
            Term::Ap(l, py) => match *l {
                Term::Ap(c, px) => match *c {
                    Term::Op(Prim::Cons) => match eval(env, &*px, fuel) {
                        Err(e) => Err(e),
                        Ok(xv) => match xv {
                            Term::Num(x) => match eval(env, &*py, fuel) {
                                Err(e) => Err(e),
                                Ok(yv) => match yv {
                                    Term::Num(y) => Ok((x, y)),
                                    _ => Err(InterpError::Eval),
                                },
                            },
                            _ => Err(InterpError::Eval),
                        },
                    },
                    _ => Err(InterpError::Eval),
                },
                _ => Err(InterpError::Eval),
            },
            _ => Err(InterpError::Eval),
        },
    }
}

/// Executable counterpart of `point_list_spec`.
fn force_point_list(env: &Vec<Term>, t: &Term, fuel: u64) -> (res: Result<
    Vec<(i64, i64)>,
    InterpError,
>)
    ensures
        match point_list_spec(env@, *t, fuel as nat) {
            Forced::Val(s) => res matches Ok(v) && v@ == s,
            Forced::Stuck => res == Err::<Vec<(i64, i64)>, InterpError>(InterpError::Eval),
            Forced::Out => res == Err::<Vec<(i64, i64)>, InterpError>(InterpError::Fuel),
        },
    decreases fuel,
{
    if fuel == 0 {
        return Err(InterpError::Fuel);
    }
    match eval(env, t, fuel) {
        Err(e) => Err(e),
        Ok(v) => match v {
            Term::Op(Prim::Nil) => {
                let out: Vec<(i64, i64)> = Vec::new();
                proof {
                    assert(out@ =~= Seq::<(i64, i64)>::empty());
                }
                Ok(out)
            },
            Term::Ap(l, tl) => match *l {
                Term::Ap(c, hd) => match *c {
                    Term::Op(Prim::Cons) => match force_point(env, &*hd, fuel - 1) {
                        Err(e) => Err(e),
                        Ok(p) => match force_point_list(env, &*tl, fuel - 1) {
                            Err(e) => Err(e),
                            Ok(mut rest) => {
                                let mut out: Vec<(i64, i64)> = Vec::new();
                                out.push(p);
                                out.append(&mut rest);
                                proof {
                                    match point_list_spec(env@, *t, fuel as nat) {
                                        Forced::Val(s) => {
                                            assert(out@ =~= s);
                                        },
                                        _ => {},
                                    }
                                }
                                Ok(out)
                            },
                        },
                    },
                    _ => Err(InterpError::Eval),
                },
                _ => Err(InterpError::Eval),
            },
            _ => Err(InterpError::Eval),
        },
    }
}

/// The views of a vector of point vectors.
pub open spec fn image_views(v: Seq<Vec<(i64, i64)>>) -> Seq<Seq<(i64, i64)>> {
    v.map_values(|iv: Vec<(i64, i64)>| iv@)
}

/// Executable counterpart of `images_spec`.
fn force_images(env: &Vec<Term>, t: &Term, fuel: u64) -> (res: Result<
    Vec<Vec<(i64, i64)>>,
    InterpError,
>)
    ensures
        match images_spec(env@, *t, fuel as nat) {
            Forced::Val(s) => res matches Ok(v) && image_views(v@) == s,
            Forced::Stuck => res == Err::<Vec<Vec<(i64, i64)>>, InterpError>(InterpError::Eval),
            Forced::Out => res == Err::<Vec<Vec<(i64, i64)>>, InterpError>(InterpError::Fuel),
        },
    decreases fuel,
{
    if fuel == 0 {
        return Err(InterpError::Fuel);
    }
    match eval(env, t, fuel) {
        Err(e) => Err(e),
        Ok(v) => match v {
            Term::Op(Prim::Nil) => {
                let out: Vec<Vec<(i64, i64)>> = Vec::new();
                proof {
                    assert(image_views(out@) =~= Seq::<Seq<(i64, i64)>>::empty());
                }
                Ok(out)
            },
            Term::Ap(l, tl) => match *l {
                Term::Ap(c, hd) => match *c {
                    Term::Op(Prim::Cons) => match force_point_list(env, &*hd, fuel - 1) {
                        Err(e) => Err(e),
                        Ok(p) => match force_images(env, &*tl, fuel - 1) {
                            Err(e) => Err(e),
                            Ok(mut rest) => {
                                let mut out: Vec<Vec<(i64, i64)>> = Vec::new();
                                out.push(p);
                                out.append(&mut rest);
                                proof {
                                    match images_spec(env@, *t, fuel as nat) {
                                        Forced::Val(s) => {
                                            assert(image_views(out@) =~= s);
                                        },
                                        _ => {},
                                    }
                                }
                                Ok(out)
                            },
                        },
                    },
                    _ => Err(InterpError::Eval),
                },
                _ => Err(InterpError::Eval),
            },
            _ => Err(InterpError::Eval),
        },
    }
}

/// Lexicographic order on integer points.
pub open spec fn lex_le(a: (i64, i64), b: (i64, i64)) -> bool {
    a.0 < b.0 || (a.0 == b.0 && a.1 <= b.1)
}

/// A point sequence in lexicographic order.
pub open spec fn sorted_lex(s: Seq<(i64, i64)>) -> bool {
    forall|i: int, j: int| 0 <= i < j < s.len() ==> lex_le(s[i], s[j])
}

/// Executable lexicographic comparison.
fn lex_le_exec(a: (i64, i64), b: (i64, i64)) -> (r: bool)
    ensures
        r == lex_le(a, b),
{
    a.0 < b.0 || (a.0 == b.0 && a.1 <= b.1)
}

/// Sorts points lexicographically; the multiset of points is unchanged.
pub fn sort_points(v: &mut Vec<(i64, i64)>)
    ensures
        sorted_lex(final(v)@),
        final(v)@.to_multiset() == old(v)@.to_multiset(),
{
    let mut i: usize = 0;
    while i < v.len()
        invariant
            i <= v@.len(),
            v@.to_multiset() == old(v)@.to_multiset(),
            forall|a: int, b: int| 0 <= a < b < i ==> lex_le(v@[a], v@[b]),
        decreases v@.len() - i,
    {
        let x = v[i];
        let mut j: usize = 0;
        while j < i && lex_le_exec(v[j], x)
            invariant
                j <= i < v@.len(),
                forall|u: int| 0 <= u < j ==> lex_le(v@[u], x),
            decreases i - j,
        {
            j = j + 1;
        }
        let ghost before = v@;
        let _ = v.remove(i);
        v.insert(j, x);
        proof {
            broadcast use vstd::seq_lib::group_to_multiset_ensures;
            vstd::seq_lib::to_multiset_insert(before.remove(i as int), j as int, x);
            assert(before.remove(i as int).to_multiset() =~= before.to_multiset().remove(x));
            assert(v@.to_multiset() =~= before.to_multiset());
            assert(forall|u: int| 0 <= u < j ==> v@[u] == before[u]);
            assert(forall|u: int| j < u <= i ==> v@[u] == before[u - 1]);
            assert(v@[j as int] == x);
            if (j as int) < i as int {
                assert(!lex_le(before[j as int], x));
                assert(lex_le(x, before[j as int]));
            }
            assert forall|a: int, b: int| 0 <= a < b < i + 1 implies lex_le(v@[a], v@[b]) by {
                if b < j {
                    assert(lex_le(before[a], before[b]));
                } else if b == j {
                    assert(lex_le(before[a], x));
                } else if a == j {
                    assert(lex_le(x, before[j as int]));
                    if j < b - 1 {
                        assert(lex_le(before[j as int], before[b - 1]));
                    }
                } else if a < j {
                    assert(lex_le(before[a], before[b - 1]));
                } else {
                    assert(lex_le(before[a - 1], before[b - 1]));
                }
            }
        }
        i = i + 1;
    }
}

/// A decoded bit-string is always a data value.
pub proof fn lemma_demod_is_data(s: Seq<bool>, i: int, fuel: nat)
    ensures
        demod_spec(s, i, fuel) matches Some(p) ==> is_data(p.0),
    decreases fuel,
{
    if fuel > 0 && 0 <= i && i + 2 <= s.len() {
        if s[i] && s[i + 1] {
            lemma_demod_is_data(s, i + 2, (fuel - 1) as nat);
            match demod_spec(s, i + 2, (fuel - 1) as nat) {
                Some((hd, j)) => {
                    lemma_demod_is_data(s, j, (fuel - 1) as nat);
                },
                None => {},
            }
        }
    }
}

/// Re-rendering a state through the codec round trip changes nothing: the
/// encoding of a data value decodes to that value, so the driver prints the
/// forced value directly.
pub proof fn lemma_state_canonical(d: Term, fuel: nat)
    requires
        is_data(d),
        fuel >= data_fuel(d),
    ensures
        demod_spec(mod_bits(d), 0, fuel) matches Some(p) && data_text(p.0) == data_text(d),
{
    lemma_decode_encode(d, fuel);
}

/// The evaluation budget of one interact round.
pub const ROUND_FUEL: u64 = 1000000;

/// The upper bound on token counts the parser entry accepts.
pub const TOKEN_CAP: usize = 0xFFFF_FFFF;

/// A whole line of text parsed as one expression; tokens beyond the first
/// expression are ignored.
pub open spec fn parse_text_spec(names: Seq<Seq<char>>, s: Seq<char>) -> Option<Term> {
    let toks = tokens_of(s);
    if toks.len() > 0xFFFF_FFFF {
        None
    } else {
        match parse_spec(names, toks, 0, (2 * toks.len() + 2) as nat) {
            Some(p) => Some(p.0),
            None => None,
        }
    }
}

/// Executable text parse against a name table, equal to `parse_text_spec`.
pub fn parse_chars(names: &Vec<Vec<char>>, cs: &Vec<char>) -> (r: Result<Term, InterpError>)
    ensures
        match parse_text_spec(seq_views(names@), cs@) {
            Some(t) => r == Ok::<Term, InterpError>(t),
            None => r == Err::<Term, InterpError>(InterpError::Parse),
        },
{
    let toks = split_chars(cs, ' ');
    if toks.len() > TOKEN_CAP {
        return Err(InterpError::Parse);
    }
    let fuel: u64 = 2 * (toks.len() as u64) + 2;
    match parse_at(names, &toks, 0, fuel) {
        Ok((t, _)) => Ok(t),
        Err(e) => Err(e),
    }
}

/// The outcome of one interact round, at the specification level.
pub enum StepRes {
    /// The round failed with this error.
    Fail(InterpError),
    /// Flag 0: the new state's text and the images, points unsorted.
    Done(Seq<char>, Seq<Seq<(i64, i64)>>),
    /// Flag 1: the new state's text and the bits to send to the server.
    Send(Seq<char>, Seq<bool>),
}

/// One round of `protocol state vector`: parse the three texts, force the
/// three-element result list, canonicalize the new state, and dispatch on
/// the flag.
pub open spec fn step_spec(
    names: Seq<Seq<char>>,
    defs: Seq<Term>,
    protocol: Seq<char>,
    state: Seq<char>,
    vector: Seq<char>,
    fuel: nat,
) -> StepRes {
    match parse_text_spec(names, protocol) {
        None => StepRes::Fail(InterpError::Parse),
        Some(pt) => match parse_text_spec(names, state) {
            None => StepRes::Fail(InterpError::Parse),
            Some(st) => match parse_text_spec(names, vector) {
                None => StepRes::Fail(InterpError::Parse),
                Some(vt) => {
                    let expr = crate::term::ap(crate::term::ap(pt, st), vt);
                    match force_list_spec(defs, expr, fuel) {
                        Forced::Out => StepRes::Fail(InterpError::Fuel),
                        Forced::Stuck => StepRes::Fail(InterpError::Eval),
                        Forced::Val(items) => if items.len() < 3 {
                            StepRes::Fail(InterpError::Eval)
                        } else {
                            match force_data_spec(defs, items[1], fuel) {
                                Forced::Out => StepRes::Fail(InterpError::Fuel),
                                Forced::Stuck => StepRes::Fail(InterpError::Eval),
                                Forced::Val(sd) => match eval_spec(defs, items[0], fuel) {
                                    Ev::Out => StepRes::Fail(InterpError::Fuel),
                                    Ev::Stuck => StepRes::Fail(InterpError::Eval),
                                    Ev::Val(fv) => match fv {
                                        Term::Num(f) => if f == 0 {
                                            match images_spec(defs, items[2], fuel) {
                                                Forced::Out => StepRes::Fail(InterpError::Fuel),
                                                Forced::Stuck => StepRes::Fail(InterpError::Eval),
                                                Forced::Val(imgs) => StepRes::Done(
                                                    data_text(sd),
                                                    imgs,
                                                ),
                                            }
                                        } else if f == 1 {
                                            match force_data_spec(defs, items[2], fuel) {
                                                Forced::Out => StepRes::Fail(InterpError::Fuel),
                                                Forced::Stuck => StepRes::Fail(InterpError::Eval),
                                                Forced::Val(dd) => StepRes::Send(
                                                    data_text(sd),
                                                    mod_bits(dd),
                                                ),
                                            }
                                        } else {
                                            StepRes::Fail(InterpError::BadFlag)
                                        },
                                        _ => StepRes::Fail(InterpError::Eval),
                                    },
                                },
                            }
                        },
                    }
                },
            },
        },
    }
}

/// The textual click vector `ap ap vec x y`.
pub open spec fn click_text(x: int, y: int) -> Seq<char> {
    seq!['a', 'p', ' ', 'a', 'p', ' ', 'v', 'e', 'c', ' '] + num_text(x) + seq![' '] + num_text(y)
}

/// A finished round: the canonical text of the new state and the images,
/// each image sorted lexicographically.
#[derive(Debug)]
pub struct InteractResult {
    pub state: String,
    pub images: Vec<Vec<(i64, i64)>>,
}

/// An integer point of an image.
#[derive(Clone, Copy)]
pub struct Point {
    pub x: i32,
    pub y: i32,
}

/// One image, as points.
pub struct Image {
    pub img: Vec<Point>,
}

impl InteractResult {
    /// The new state's text.
    pub fn state(&self) -> (r: String)
        ensures
            r@ == self.state@,
    {
        self.state.clone()
    }

    /// How many images the round produced.
    pub fn image_count(&self) -> (n: usize)
        ensures
            n == self.images@.len(),
    {
        self.images.len()
    }

    /// One image, its coordinates narrowed to 32 bits.
    pub fn image(&self, i: usize) -> (im: Image)
        requires
            i < self.images@.len(),
        ensures
            im.img@.len() == self.images@[i as int]@.len(),
            forall|k: int| 0 <= k < im.img@.len() ==> #[trigger] im.img@[k].x
                == self.images@[i as int]@[k].0 as i32 && im.img@[k].y
                == self.images@[i as int]@[k].1 as i32,
    {
        let src = &self.images[i];
        let mut img: Vec<Point> = Vec::new();
        let mut k: usize = 0;
        while k < src.len()
            invariant
                k <= src@.len(),
                src@ == self.images@[i as int]@,
                img@.len() == k,
                forall|u: int| 0 <= u < k ==> #[trigger] img@[u].x == src@[u].0 as i32
                    && img@[u].y == src@[u].1 as i32,
            decreases src@.len() - k,
        {
            let p = src[k];
            #[verifier::truncate]
            let px = p.0 as i32;
            #[verifier::truncate]
            let py = p.1 as i32;
            img.push(Point { x: px, y: py });
            k = k + 1;
        }
        Image { img }
    }
}

impl Image {
    /// How many points the image holds.
    pub fn count(&self) -> (n: usize)
        ensures
            n == self.img@.len(),
    {
        self.img.len()
    }

    /// One point of the image.
    pub fn point(&self, i: usize) -> (p: Point)
        requires
            i < self.img@.len(),
        ensures
            p == self.img@[i as int],
    {
        self.img[i]
    }
}

/// The outcome of one executable interact round.
pub enum StepOutcome {
    /// Flag 0: the finished result.
    Done(InteractResult),
    /// Flag 1: the new state's text and the bit payload to send.
    Send(String, String),
}

/// The interpreter: a table of named definitions.
pub struct G {
    pub names: Vec<Vec<char>>,
    pub defs: Vec<Term>,
}

impl G {
    /// One definition per name.
    pub open spec fn wf(self) -> bool {
        self.names@.len() == self.defs@.len()
    }

    /// An interpreter with an empty environment.
    pub fn new() -> (g: G)
        ensures
            g.wf(),
            g.names@.len() == 0,
            g.defs@.len() == 0,
    {
        G { names: Vec::new(), defs: Vec::new() }
    }

    /// Parses one expression against the environment's names.
    pub fn parse_term(&self, expr: &str) -> (r: Result<Term, InterpError>)
        ensures
            match parse_text_spec(seq_views(self.names@), expr@) {
                Some(t) => r == Ok::<Term, InterpError>(t),
                None => r == Err::<Term, InterpError>(InterpError::Parse),
            },
    {
        let cs = str_chars(expr);
        parse_chars(&self.names, &cs)
    }

    /// Parses an expression and reduces it to weak head normal form.
    pub fn eval_term(&self, expr: &str) -> (r: Result<Term, InterpError>)
        requires
            self.wf(),
        ensures
            match parse_text_spec(seq_views(self.names@), expr@) {
                None => r == Err::<Term, InterpError>(InterpError::Parse),
                Some(t) => match eval_spec(self.defs@, t, ROUND_FUEL as nat) {
                    Ev::Val(v) => r == Ok::<Term, InterpError>(v),
                    Ev::Stuck => r == Err::<Term, InterpError>(InterpError::Eval),
                    Ev::Out => r == Err::<Term, InterpError>(InterpError::Fuel),
                },
            },
    {
        let cs = str_chars(expr);
        match parse_chars(&self.names, &cs) {
            Err(e) => Err(e),
            Ok(t) => eval(&self.defs, &t, ROUND_FUEL),
        }
    }

    /// Parses an expression and evaluates it all the way to a data value.
    pub fn eval_data(&self, expr: &str) -> (r: Result<Term, InterpError>)
        requires
            self.wf(),
        ensures
            match parse_text_spec(seq_views(self.names@), expr@) {
                None => r == Err::<Term, InterpError>(InterpError::Parse),
                Some(t) => match force_data_spec(self.defs@, t, ROUND_FUEL as nat) {
                    Forced::Val(d) => r == Ok::<Term, InterpError>(d),
                    Forced::Stuck => r == Err::<Term, InterpError>(InterpError::Eval),
                    Forced::Out => r == Err::<Term, InterpError>(InterpError::Fuel),
                },
            },
    {
        let cs = str_chars(expr);
        match parse_chars(&self.names, &cs) {
            Err(e) => Err(e),
            Ok(t) => force_data(&self.defs, &t, ROUND_FUEL),
        }
    }

    /// Parses an expression, evaluates it to a data value, and encodes it
    /// as a bit-string.
    pub fn modulate_text(&self, expr: &str) -> (r: Result<String, InterpError>)
        requires
            self.wf(),
        ensures
            match parse_text_spec(seq_views(self.names@), expr@) {
                None => r == Err::<String, InterpError>(InterpError::Parse),
                Some(t) => match force_data_spec(self.defs@, t, ROUND_FUEL as nat) {
                    Forced::Val(d) => r matches Ok(s) && s@ == bit_chars(mod_bits(d)),
                    Forced::Stuck => r == Err::<String, InterpError>(InterpError::Eval),
                    Forced::Out => r == Err::<String, InterpError>(InterpError::Fuel),
                },
            },
    {
        match self.eval_data(expr) {
            Err(e) => Err(e),
            Ok(d) => {
                proof {
                    match parse_text_spec(seq_views(self.names@), expr@) {
                        Some(t) => {
                            lemma_force_data_is_data(self.defs@, t, ROUND_FUEL as nat);
                        },
                        None => {},
                    }
                }
                let bits = modulate_data(&d);
                Ok(bits_to_text(&bits))
            },
        }
    }

    /// Adds one definition; the expression is parsed against the
    /// environment as it stands, so a name may refer to earlier ones.
    pub fn define(&mut self, name: &str, expr: &str) -> (r: Result<(), InterpError>)
        requires
            old(self).wf(),
        ensures
            final(self).wf(),
            match parse_text_spec(seq_views(old(self).names@), expr@) {
                Some(t) => r is Ok && seq_views(final(self).names@) == seq_views(
                    old(self).names@,
                ).push(name@) && final(self).defs@ == old(self).defs@.push(t),
                None => r == Err::<(), InterpError>(InterpError::Parse) && seq_views(
                    final(self).names@,
                ) == seq_views(old(self).names@) && final(self).defs@ == old(self).defs@,
            },
    {
        let cs = str_chars(expr);
        match parse_chars(&self.names, &cs) {
            Err(e) => Err(e),
            Ok(t) => {
                let nm = str_chars(name);
                let ghost prev = seq_views(self.names@);
                self.names.push(nm);
                self.defs.push(t);
                proof {
                    assert(seq_views(self.names@) =~= prev.push(name@));
                }
                Ok(())
            },
        }
    }

    /// One round of the interact protocol, from texts to an outcome.
    pub fn interact_step(&self, protocol: &str, state: &str, vector: &str) -> (res: Result<
        StepOutcome,
        InterpError,
    >)
        requires
            self.wf(),
        ensures
            match step_spec(
                seq_views(self.names@),
                self.defs@,
                protocol@,
                state@,
                vector@,
                ROUND_FUEL as nat,
            ) {
                StepRes::Fail(e) => res == Err::<StepOutcome, InterpError>(e),
                StepRes::Done(st, imgs) => res matches Ok(StepOutcome::Done(ir)) && ir.state@ == st
                    && ir.images@.len() == imgs.len() && (forall|k: int|
                    0 <= k < imgs.len() ==> sorted_lex(#[trigger] ir.images@[k]@)
                        && ir.images@[k]@.to_multiset() == imgs[k].to_multiset()),
                StepRes::Send(st, bits) => res matches Ok(StepOutcome::Send(s2, payload)) && s2@
                    == st && payload@ == bit_chars(bits),
            },
    {
        let pcs = str_chars(protocol);
        let pt = match parse_chars(&self.names, &pcs) {
            Ok(t) => t,
            Err(e) => {
                return Err(e);
            },
        };
        let scs = str_chars(state);
        let st = match parse_chars(&self.names, &scs) {
            Ok(t) => t,
            Err(e) => {
                return Err(e);
            },
        };
        let vcs = str_chars(vector);
        let vt = match parse_chars(&self.names, &vcs) {
            Ok(t) => t,
            Err(e) => {
                return Err(e);
            },
        };
        let expr = Term::Ap(Box::new(Term::Ap(Box::new(pt), Box::new(st))), Box::new(vt));
        let items = match force_list(&self.defs, &expr, ROUND_FUEL) {
            Ok(v) => v,
            Err(e) => {
                return Err(e);
            },
        };
        if items.len() < 3 {
            return Err(InterpError::Eval);
        }
        let sd = match force_data(&self.defs, &items[1], ROUND_FUEL) {
            Ok(d) => d,
            Err(e) => {
                return Err(e);
            },
        };
        proof {
            lemma_force_data_is_data(self.defs@, items@[1], ROUND_FUEL as nat);
        }
        let state_text = data_to_text(&sd);
        let flag = match eval(&self.defs, &items[0], ROUND_FUEL) {
            Ok(v) => v,
            Err(e) => {
                return Err(e);
            },
        };
        match flag {
            Term::Num(f) => {
                if f == 0 {
                    let imgs = match force_images(&self.defs, &items[2], ROUND_FUEL) {
                        Ok(v) => v,
                        Err(e) => {
                            return Err(e);
                        },
                    };
                    let ghost spec_imgs = image_views(imgs@);
                    let mut sorted: Vec<Vec<(i64, i64)>> = Vec::new();
                    let mut k: usize = 0;
                    while k < imgs.len()
                        invariant
                            k <= imgs@.len(),
                            sorted@.len() == k,
                            spec_imgs == image_views(imgs@),
                            spec_imgs.len() == imgs@.len(),
                            forall|u: int| 0 <= u < imgs@.len() ==> spec_imgs[u] == imgs@[u]@,
                            forall|u: int| 0 <= u < k ==> sorted_lex(#[trigger] sorted@[u]@)
                                && sorted@[u]@.to_multiset() == spec_imgs[u].to_multiset(),
                        decreases imgs@.len() - k,
                    {
                        let mut c = copy_points(&imgs[k]);
                        sort_points(&mut c);
                        sorted.push(c);
                        k = k + 1;
                    }
                    Ok(StepOutcome::Done(InteractResult { state: state_text, images: sorted }))
                } else if f == 1 {
                    let dd = match force_data(&self.defs, &items[2], ROUND_FUEL) {
                        Ok(d) => d,
                        Err(e) => {
                            return Err(e);
                        },
                    };
                    proof {
                        lemma_force_data_is_data(self.defs@, items@[2], ROUND_FUEL as nat);
                    }
                    let bits = modulate_data(&dd);
                    Ok(StepOutcome::Send(state_text, bits_to_text(&bits)))
                } else {
                    Err(InterpError::BadFlag)
                }
            },
            _ => Err(InterpError::Eval),
        }
    }

    /// One tick at a click: builds the vector `ap ap vec x y` and runs one
    /// round. A protocol that asks for the remote server is answered with
    /// `NeedsSend`: the host performs the exchange and resumes with
    /// `interact_step`.
    pub fn interact(&self, protocol: &str, state: &str, x: i32, y: i32) -> (res: Result<
        InteractResult,
        InterpError,
    >)
        requires
            self.wf(),
        ensures
            match step_spec(
                seq_views(self.names@),
                self.defs@,
                protocol@,
                state@,
                click_text(x as int, y as int),
                ROUND_FUEL as nat,
            ) {
                StepRes::Fail(e) => res == Err::<InteractResult, InterpError>(e),
                StepRes::Done(st, imgs) => res matches Ok(ir) && ir.state@ == st
                    && ir.images@.len() == imgs.len() && (forall|k: int|
                    0 <= k < imgs.len() ==> sorted_lex(#[trigger] ir.images@[k]@)
                        && ir.images@[k]@.to_multiset() == imgs[k].to_multiset()),
                StepRes::Send(_, _) => res == Err::<InteractResult, InterpError>(
                    InterpError::NeedsSend,
                ),
            },
    {
        let mut vec_text = String::new();
        proof {
            reveal_strlit("ap ap vec ");
            reveal_strlit(" ");
        }
        vec_text.append("ap ap vec ");
        push_num(&mut vec_text, x as i64);
        vec_text.append(" ");
        push_num(&mut vec_text, y as i64);
        proof {
            assert(vec_text@ =~= click_text(x as int, y as int));
        }
        match self.interact_step(protocol, state, vec_text.as_str()) {
            Err(e) => Err(e),
            Ok(StepOutcome::Done(ir)) => Ok(ir),
            Ok(StepOutcome::Send(_, _)) => Err(InterpError::NeedsSend),
        }
    }

    /// The galaxy protocol at a click.
    pub fn galaxy(&self, state: &str, x: i32, y: i32) -> (res: Result<InteractResult, InterpError>)
        requires
            self.wf(),
        ensures
            match step_spec(
                seq_views(self.names@),
                self.defs@,
                "galaxy"@,
                state@,
                click_text(x as int, y as int),
                ROUND_FUEL as nat,
            ) {
                StepRes::Fail(e) => res == Err::<InteractResult, InterpError>(e),
                StepRes::Done(st, imgs) => res matches Ok(ir) && ir.state@ == st
                    && ir.images@.len() == imgs.len() && (forall|k: int|
                    0 <= k < imgs.len() ==> sorted_lex(#[trigger] ir.images@[k]@)
                        && ir.images@[k]@.to_multiset() == imgs[k].to_multiset()),
                StepRes::Send(_, _) => res == Err::<InteractResult, InterpError>(
                    InterpError::NeedsSend,
                ),
            },
    {
        self.interact("galaxy", state, x, y)
    }
}

/// A copy of a point vector.
fn copy_points(v: &Vec<(i64, i64)>) -> (r: Vec<(i64, i64)>)
    ensures
        r@ == v@,
{
    let mut out: Vec<(i64, i64)> = Vec::new();
    let mut i: usize = 0;
    while i < v.len()
        invariant
            i <= v@.len(),
            out@ == v@.subrange(0, i as int),
        decreases v@.len() - i,
    {
        out.push(v[i]);
        proof {
            assert(out@ =~= v@.subrange(0, i + 1));
        }
        i = i + 1;
    }
    proof {
        assert(v@.subrange(0, v@.len() as int) =~= v@);
    }
    out
}

/// What a bit-string text decodes to, trailing bits ignored.
pub open spec fn demod_text_spec(s: Seq<char>) -> Option<Term> {
    let bs = chars_bits(s);
    match demod_spec(bs, 0, bs.len() / 2 + 2) {
        Some(p) => Some(p.0),
        None => None,
    }
}

/// Decodes a bit-string text to a data value.
pub fn demodulate_text(s: &str) -> (r: Result<Term, InterpError>)
    ensures
        match demod_text_spec(s@) {
            Some(d) => r == Ok::<Term, InterpError>(d),
            None => r == Err::<Term, InterpError>(InterpError::Codec),
        },
{
    let cs = str_chars(s);
    let bits = text_to_bits(&cs);
    let fuel: u64 = (bits.len() as u64) / 2 + 2;
    match demodulate(&bits, 0, fuel) {
        Ok((d, _)) => Ok(d),
        Err(e) => Err(e),
    }
}

/// Decodes the server's reply and renders it as the next vector's text.
pub fn response_to_vector(s: &str) -> (r: Result<String, InterpError>)
    ensures
        match demod_text_spec(s@) {
            Some(d) => r matches Ok(v) && v@ == data_text(d),
            None => r == Err::<String, InterpError>(InterpError::Codec),
        },
{
    match demodulate_text(s) {
        Err(e) => Err(e),
        Ok(d) => {
            proof {
                let bs = chars_bits(s@);
                lemma_demod_is_data(bs, 0, bs.len() / 2 + 2);
            }
            Ok(data_to_text(&d))
        },
    }
}

/// First position of the ` = ` separator, or the length if absent.
pub open spec fn find_eq(s: Seq<char>, i: int) -> int
    decreases s.len() - i,
{
    if i < 0 || i + 3 > s.len() {
        s.len() as int
    } else if s[i] == ' ' && s[i + 1] == '=' && s[i + 2] == ' ' {
        i
    } else {
        find_eq(s, i + 1)
    }
}

/// A library line split at its first ` = ` into name and expression.
pub open spec fn def_split(line: Seq<char>) -> Option<(Seq<char>, Seq<char>)> {
    let j = find_eq(line, 0);
    if 0 <= j && j + 3 <= line.len() {
        Some((line.subrange(0, j), line.subrange(j + 3, line.len() as int)))
    } else {
        None
    }
}

/// The name/expression pairs of the lines from `k` on.
pub open spec fn pairs_of_lines(ls: Seq<Seq<char>>, k: int) -> Option<Seq<(Seq<char>, Seq<char>)>>
    decreases ls.len() - k,
{
    if k < 0 {
        None
    } else if k >= ls.len() {
        Some(Seq::empty())
    } else {
        match def_split(ls[k]) {
            None => None,
            Some(p) => match pairs_of_lines(ls, k + 1) {
                None => None,
                Some(r) => Some(seq![p] + r),
            },
        }
    }
}

/// The expressions of the pairs from `k` on, parsed against the full name
/// table, so a definition may refer forward.
pub open spec fn parse_defs(
    names: Seq<Seq<char>>,
    prs: Seq<(Seq<char>, Seq<char>)>,
    k: int,
) -> Option<Seq<Term>>
    decreases prs.len() - k,
{
    if k < 0 {
        None
    } else if k >= prs.len() {
        Some(Seq::empty())
    } else {
        match parse_text_spec(names, prs[k].1) {
            None => None,
            Some(t) => match parse_defs(names, prs, k + 1) {
                None => None,
                Some(r) => Some(seq![t] + r),
            },
        }
    }
}

/// What loading a library text does to an environment: every line is
/// `name = expression`; all names enter the table first, then every
/// expression is parsed against the full table.
pub open spec fn load_spec(
    names: Seq<Seq<char>>,
    defs: Seq<Term>,
    text: Seq<char>,
) -> Option<(Seq<Seq<char>>, Seq<Term>)> {
    let ls = split_from(text, '\n', 0);
    match pairs_of_lines(ls, 0) {
        None => None,
        Some(prs) => {
            let names2 = names + prs.map_values(|p: (Seq<char>, Seq<char>)| p.0);
            match parse_defs(names2, prs, 0) {
                None => None,
                Some(ts) => Some((names2, defs + ts)),
            }
        },
    }
}

/// Finds the first ` = ` of a line.
fn find_eq_at(line: &Vec<char>) -> (j: usize)
    ensures
        j as int == find_eq(line@, 0),
        j <= line@.len(),
{
    let mut j: usize = 0;
    loop
        invariant
            j <= line@.len(),
            find_eq(line@, 0) == find_eq(line@, j as int),
        decreases line@.len() - j,
    {
        if j >= line.len() || line.len() - j < 3 {
            return line.len();
        }
        if line[j] == ' ' && line[j + 1] == '=' && line[j + 2] == ' ' {
            return j;
        }
        j = j + 1;
    }
}

/// A copy of a slice of characters.
fn sub_chars(v: &Vec<char>, a: usize, b: usize) -> (r: Vec<char>)
    requires
        a <= b <= v@.len(),
    ensures
        r@ == v@.subrange(a as int, b as int),
{
    let mut out: Vec<char> = Vec::new();
    let mut i = a;
    while i < b
        invariant
            a <= i <= b <= v@.len(),
            out@ == v@.subrange(a as int, i as int),
        decreases b - i,
    {
        out.push(v[i]);
        proof {
            assert(out@ =~= v@.subrange(a as int, i + 1));
        }
        i = i + 1;
    }
    out
}

impl G {
    /// Loads a whole protocol library: lines of `name = expression`.
    /// Names may refer to each other in any order; nothing changes when
    /// any line is malformed.
    pub fn load_library(&mut self, text: &str) -> (r: Result<(), InterpError>)
        requires
            old(self).wf(),
        ensures
            final(self).wf(),
            match load_spec(seq_views(old(self).names@), old(self).defs@, text@) {
                Some(p) => r is Ok && seq_views(final(self).names@) == p.0 && final(self).defs@
                    == p.1,
                None => r == Err::<(), InterpError>(InterpError::Parse) && seq_views(
                    final(self).names@,
                ) == seq_views(old(self).names@) && final(self).defs@ == old(self).defs@,
            },
    {
        let cs = str_chars(text);
        let lines = split_chars(&cs, '\n');
        let ghost ls = split_from(text@, '\n', 0);
        let mut names_new: Vec<Vec<char>> = Vec::new();
        let mut exprs: Vec<Vec<char>> = Vec::new();
        let mut k: usize = 0;
        while k < lines.len()
            invariant
                k <= lines@.len(),
                seq_views(lines@) == ls,
                ls == split_from(text@, '\n', 0),
                seq_views(self.names@) == seq_views(old(self).names@),
                self.defs@ == old(self).defs@,
                self.names@.len() == self.defs@.len(),
                names_new@.len() == k,
                exprs@.len() == k,
                match pairs_of_lines(ls, k as int) {
                    Some(rest) => pairs_of_lines(ls, 0) == Some(
                        Seq::new(
                            k as nat,
                            |u: int| (seq_views(names_new@)[u], seq_views(exprs@)[u]),
                        ) + rest,
                    ),
                    None => pairs_of_lines(ls, 0) is None,
                },
            decreases lines@.len() - k,
        {
            let line = &lines[k];
            proof {
                assert(seq_views(lines@)[k as int] == lines@[k as int]@);
            }
            let j = find_eq_at(line);
            if j >= line.len() || line.len() - j < 3 {
                proof {
                    assert(def_split(ls[k as int]) is None);
                }
                return Err(InterpError::Parse);
            }
            let nm = sub_chars(line, 0, j);
            let ex = sub_chars(line, j + 3, line.len());
            let ghost prev_names = seq_views(names_new@);
            let ghost prev_exprs = seq_views(exprs@);
            names_new.push(nm);
            exprs.push(ex);
            proof {
                assert(seq_views(names_new@) =~= prev_names.push(nm@));
                assert(seq_views(exprs@) =~= prev_exprs.push(ex@));
                assert(def_split(ls[k as int]) == Some::<(Seq<char>, Seq<char>)>((nm@, ex@)));
                match pairs_of_lines(ls, k + 1) {
                    Some(rest2) => {
                        assert(pairs_of_lines(ls, k as int) == Some(
                            seq![(nm@, ex@)] + rest2,
                        ));
                        assert(Seq::new(
                            (k + 1) as nat,
                            |u: int| (seq_views(names_new@)[u], seq_views(exprs@)[u]),
                        ) + rest2 =~= Seq::new(
                            k as nat,
                            |u: int| (prev_names[u], prev_exprs[u]),
                        ) + (seq![(nm@, ex@)] + rest2));
                    },
                    None => {},
                }
            }
            k = k + 1;
        }
        let ghost prs = Seq::new(
            k as nat,
            |u: int| (seq_views(names_new@)[u], seq_views(exprs@)[u]),
        );
        proof {
            assert(pairs_of_lines(ls, k as int) == Some(Seq::<(Seq<char>, Seq<char>)>::empty()));
            assert(prs + Seq::<(Seq<char>, Seq<char>)>::empty() =~= prs);
            assert(pairs_of_lines(ls, 0) == Some(prs));
        }
        // the full name table: the old names, then every new one
        let mut names2: Vec<Vec<char>> = Vec::new();
        let mut u: usize = 0;
        while u < self.names.len()
            invariant
                u <= self.names@.len(),
                seq_views(names2@) == seq_views(self.names@).subrange(0, u as int),
            decreases self.names@.len() - u,
        {
            let ghost prev = seq_views(names2@);
            let c = sub_chars(&self.names[u], 0, self.names[u].len());
            names2.push(c);
            proof {
                assert(seq_views(self.names@)[u as int] == self.names@[u as int]@);
                assert(c@ =~= self.names@[u as int]@);
                assert(seq_views(names2@) =~= prev.push(c@));
                assert(seq_views(names2@) =~= seq_views(self.names@).subrange(0, u + 1));
            }
            u = u + 1;
        }
        proof {
            assert(seq_views(self.names@).subrange(0, self.names@.len() as int) =~= seq_views(
                self.names@,
            ));
        }
        names2.append(&mut names_new);
        let ghost names2v = seq_views(names2@);
        proof {
            assert(names2v =~= seq_views(self.names@) + prs.map_values(
                |p: (Seq<char>, Seq<char>)| p.0,
            )) by {
                assert forall|w: int| 0 <= w < names2v.len() implies names2v[w] == (seq_views(
                    self.names@,
                ) + prs.map_values(|p: (Seq<char>, Seq<char>)| p.0))[w] by {
                    assert(seq_views(names2@)[w] == names2@[w]@);
                }
            }
        }
        // parse every expression against the full table
        let mut ts: Vec<Term> = Vec::new();
        let mut k2: usize = 0;
        while k2 < exprs.len()
            invariant
                k2 <= exprs@.len(),
                exprs@.len() == prs.len(),
                ts@.len() == k2,
                names2v == seq_views(names2@),
                ls == split_from(text@, '\n', 0),
                seq_views(self.names@) == seq_views(old(self).names@),
                self.defs@ == old(self).defs@,
                self.names@.len() == self.defs@.len(),
                pairs_of_lines(ls, 0) == Some(prs),
                names2v == seq_views(old(self).names@) + prs.map_values(
                    |p: (Seq<char>, Seq<char>)| p.0,
                ),
                forall|u2: int| 0 <= u2 < prs.len() ==> prs[u2].1 == #[trigger] exprs@[u2]@,
                match parse_defs(names2v, prs, k2 as int) {
                    Some(rest) => parse_defs(names2v, prs, 0) == Some(ts@ + rest),
                    None => parse_defs(names2v, prs, 0) is None,
                },
            decreases exprs@.len() - k2,
        {
            let t = match parse_chars(&names2, &exprs[k2]) {
                Ok(t) => t,
                Err(_) => {
                    return Err(InterpError::Parse);
                },
            };
            let ghost prev_ts = ts@;
            ts.push(t);
            proof {
                match parse_defs(names2v, prs, k2 + 1) {
                    Some(rest2) => {
                        assert(parse_defs(names2v, prs, k2 as int) == Some(seq![t] + rest2));
                        assert(prev_ts.push(t) + rest2 =~= prev_ts + (seq![t] + rest2));
                    },
                    None => {},
                }
            }
            k2 = k2 + 1;
        }
        proof {
            assert(parse_defs(names2v, prs, k2 as int) == Some(Seq::<Term>::empty()));
            assert(ts@ + Seq::<Term>::empty() =~= ts@);
            assert(parse_defs(names2v, prs, 0) == Some(ts@));
        }
        // commit
        let ghost old_defs = self.defs@;
        let ghost tsv = ts@;
        self.names = names2;
        self.defs.append(&mut ts);
        proof {
            assert(self.defs@ =~= old_defs + tsv);
        }
        Ok(())
    }
}

} // verus!
