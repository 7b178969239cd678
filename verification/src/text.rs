//! Textual forms: data values back to prefix text, bit-strings to and from
//! text, and strings to character vectors.

use vstd::prelude::*;
use crate::term::{is_data, Term};
use vstd::string::StrSliceExecFns;
use vstd::string::StringExecFns;

verus! {

/// The character of one decimal digit.
pub open spec fn digit_char(d: nat) -> char {
    if d == 0 {
        '0'
    } else if d == 1 {
        '1'
    } else if d == 2 {
        '2'
    } else if d == 3 {
        '3'
    } else if d == 4 {
        '4'
    } else if d == 5 {
        '5'
    } else if d == 6 {
        '6'
    } else if d == 7 {
        '7'
    } else if d == 8 {
        '8'
    } else {
        '9'
    }
}

/// The decimal digits of a magnitude, most significant first.
pub open spec fn dec_digits(m: nat) -> Seq<char>
    decreases m,
{
    if m < 10 {
        seq![digit_char(m)]
    } else {
        dec_digits(m / 10).push(digit_char(m % 10))
    }
}

/// The decimal text of an integer, with a leading minus when negative.
pub open spec fn num_text(n: int) -> Seq<char> {
    if n < 0 {
        seq!['-'] + dec_digits((-n) as nat)
    } else {
        dec_digits(n as nat)
    }
}

/// The prefix text of a data value: `ap ap cons <hd> <tl>`, `nil`, or a
/// number.
pub open spec fn data_text(d: Term) -> Seq<char>
    decreases d,
{
    match d {
        Term::Num(n) => num_text(n as int),
        Term::Op(_) => seq!['n', 'i', 'l'],
        Term::Ap(l, tl) => match *l {
            Term::Ap(_, hd) => seq!['a', 'p', ' ', 'a', 'p', ' ', 'c', 'o', 'n', 's', ' ']
                + data_text(*hd) + seq![' '] + data_text(*tl),
            _ => Seq::empty(),
        },
        _ => Seq::empty(),
    }
}

/// The characters of a bit sequence, `'1'` for set bits.
pub open spec fn bit_chars(bs: Seq<bool>) -> Seq<char> {
    bs.map_values(|b: bool| if b {
        '1'
    } else {
        '0'
    })
}

/// The bits a character sequence denotes: any character but `'1'` is a
/// zero bit.
pub open spec fn chars_bits(cs: Seq<char>) -> Seq<bool> {
    cs.map_values(|c: char| c == '1')
}

/// One digit as text.
fn digit_str(d: u64) -> (r: &'static str)
    requires
        d < 10,
    ensures
        r@ == seq![digit_char(d as nat)],
{
    proof {
        reveal_strlit("0");
        reveal_strlit("1");
        reveal_strlit("2");
        reveal_strlit("3");
        reveal_strlit("4");
        reveal_strlit("5");
        reveal_strlit("6");
        reveal_strlit("7");
        reveal_strlit("8");
        reveal_strlit("9");
    }
    let r: &'static str = if d == 0 {
        "0"
    } else if d == 1 {
        "1"
    } else if d == 2 {
        "2"
    } else if d == 3 {
        "3"
    } else if d == 4 {
        "4"
    } else if d == 5 {
        "5"
    } else if d == 6 {
        "6"
    } else if d == 7 {
        "7"
    } else if d == 8 {
        "8"
    } else {
        "9"
    };
    proof {
        assert(r@ =~= seq![digit_char(d as nat)]);
    }
    r
}

/// Appends the decimal digits of a magnitude.
fn push_digits(out: &mut String, m: u64)
    ensures
        final(out)@ == old(out)@ + dec_digits(m as nat),
    decreases m,
{
    if m < 10 {
        out.append(digit_str(m));
        proof {
            assert(out@ =~= old(out)@ + dec_digits(m as nat));
        }
    } else {
        push_digits(out, m / 10);
        out.append(digit_str(m % 10));
        proof {
            assert(out@ =~= old(out)@ + dec_digits(m as nat));
        }
    }
}

/// Appends the decimal text of an integer.
pub fn push_num(out: &mut String, n: i64)
    ensures
        final(out)@ == old(out)@ + num_text(n as int),
{
    if n >= 0 {
        push_digits(out, n as u64);
    } else {
        proof {
            reveal_strlit("-");
        }
        out.append("-");
        let m: u64 = if n == i64::MIN {
            0x8000_0000_0000_0000u64
        } else {
            (-n) as u64
        };
        push_digits(out, m);
        proof {
            assert(out@ =~= old(out)@ + num_text(n as int));
        }
    }
}

/// Appends the prefix text of a data value.
pub fn push_data_text(out: &mut String, d: &Term)
    requires
        is_data(*d),
    ensures
        final(out)@ == old(out)@ + data_text(*d),
    decreases *d,
{
    match d {
        Term::Num(n) => {
            push_num(out, *n);
        },
        Term::Op(_) => {
            proof {
                reveal_strlit("nil");
            }
            out.append("nil");
            proof {
                assert(out@ =~= old(out)@ + data_text(*d));
            }
        },
        Term::Ap(l, tl) => match &**l {
            Term::Ap(_, hd) => {
                proof {
                    reveal_strlit("ap ap cons ");
                    reveal_strlit(" ");
                }
                out.append("ap ap cons ");
                push_data_text(out, &**hd);
                out.append(" ");
                push_data_text(out, &**tl);
                proof {
                    assert(out@ =~= old(out)@ + data_text(*d));
                }
            },
            _ => {
                proof {
                    assert(false);
                }
            },
        },
        _ => {
            proof {
                assert(false);
            }
        },
    }
}

/// The text of a data value.
pub fn data_to_text(d: &Term) -> (r: String)
    requires
        is_data(*d),
    ensures
        r@ == data_text(*d),
{
    let mut out = String::new();
    push_data_text(&mut out, d);
    proof {
        assert(out@ =~= data_text(*d));
    }
    out
}

/// A bit-string as text of `'0'` and `'1'`.
pub fn bits_to_text(bits: &Vec<bool>) -> (r: String)
    ensures
        r@ == bit_chars(bits@),
{
    proof {
        reveal_strlit("0");
        reveal_strlit("1");
    }
    let mut out = String::new();
    let mut i: usize = 0;
    while i < bits.len()
        invariant
            i <= bits@.len(),
            out@ == bit_chars(bits@.subrange(0, i as int)),
        decreases bits@.len() - i,
    {
        if bits[i] {
            out.append("1");
        } else {
            out.append("0");
        }
        proof {
            reveal_strlit("0");
            reveal_strlit("1");
            assert(out@ =~= bit_chars(bits@.subrange(0, i + 1)));
        }
        i = i + 1;
    }
    proof {
        assert(bits@.subrange(0, bits@.len() as int) =~= bits@);
    }
    out
}

/// The bits a text denotes, `'1'` for a set bit and anything else clear.
pub fn text_to_bits(cs: &Vec<char>) -> (r: Vec<bool>)
    ensures
        r@ == chars_bits(cs@),
{
    let mut out: Vec<bool> = Vec::new();
    let mut i: usize = 0;
    while i < cs.len()
        invariant
            i <= cs@.len(),
            out@ == chars_bits(cs@.subrange(0, i as int)),
        decreases cs@.len() - i,
    {
        out.push(cs[i] == '1');
        proof {
            assert(out@ =~= chars_bits(cs@.subrange(0, i + 1)));
        }
        i = i + 1;
    }
    proof {
        assert(cs@.subrange(0, cs@.len() as int) =~= cs@);
    }
    out
}

/// The characters of a string.
pub fn str_chars(s: &str) -> (r: Vec<char>)
    ensures
        r@ == s@,
{
    let n = s.unicode_len();
    let mut out: Vec<char> = Vec::new();
    let mut i: usize = 0;
    while i < n
        invariant
            i <= n,
            n == s@.len(),
            out@ == s@.subrange(0, i as int),
        decreases n - i,
    {
        out.push(s.get_char(i));
        proof {
            assert(out@ =~= s@.subrange(0, i + 1));
        }
        i = i + 1;
    }
    proof {
        assert(s@.subrange(0, s@.len() as int) =~= s@);
    }
    out
}

} // verus!
