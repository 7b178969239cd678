//! The prefix parser: whitespace-separated tokens to terms, with the list
//! sugar `( a , b , c )` and the `vec` alias for `cons`.
//!
//! The grammar is fixed by `parse_spec` / `parse_list_spec`; the executable
//! parser returns exactly what they say. The reserved tokens `mod` and `dem`
//! are not reducible and are rejected.

use vstd::prelude::*;
use crate::term::{ap, cons_cell, InterpError, Prim, Term};

verus! {

/// The views of a vector of character vectors.
pub open spec fn seq_views(ts: Seq<Vec<char>>) -> Seq<Seq<char>> {
    ts.map_values(|t: Vec<char>| t@)
}

/// First position of `sep` at or after `i`, or the length if absent.
pub open spec fn find_sep(s: Seq<char>, sep: char, i: int) -> int
    decreases s.len() - i,
{
    if i < 0 || i >= s.len() {
        s.len() as int
    } else if s[i] == sep {
        i
    } else {
        find_sep(s, sep, i + 1)
    }
}

/// Splits `s` at every `sep` from position `i` on; an empty `s` is one
/// empty token, as string splitting conventionally has it.
pub open spec fn split_from(s: Seq<char>, sep: char, i: int) -> Seq<Seq<char>>
    decreases s.len() - i,
{
    let j = find_sep(s, sep, i);
    if 0 <= i <= j < s.len() && s[j] == sep {
        seq![s.subrange(i, j)] + split_from(s, sep, j + 1)
    } else {
        seq![s.subrange(if 0 <= i <= s.len() { i } else { 0 }, s.len() as int)]
    }
}

/// The whitespace-separated tokens of a line.
pub open spec fn tokens_of(s: Seq<char>) -> Seq<Seq<char>> {
    split_from(s, ' ', 0)
}

/// A decimal digit.
pub open spec fn is_digit(c: char) -> bool {
    48 <= c as u32 <= 57
}

/// The numeric value of one digit.
pub open spec fn digit_val(c: char) -> nat {
    (c as u32 - 48) as nat
}

/// Every character is a decimal digit.
pub open spec fn all_digits(ds: Seq<char>) -> bool {
    forall|j: int| 0 <= j < ds.len() ==> is_digit(ds[j])
}

/// The value of a digit string, most significant first.
pub open spec fn digits_val(ds: Seq<char>) -> nat
    decreases ds.len(),
{
    if ds.len() == 0 {
        0
    } else {
        digits_val(ds.drop_last()) * 10 + digit_val(ds.last())
    }
}

/// The 64-bit integer a token denotes, if any: an optional sign followed by
/// one or more digits, within the 64-bit range.
pub open spec fn num_of(t: Seq<char>) -> Option<i64> {
    let neg = t.len() > 0 && t[0] == '-';
    let signed = t.len() > 0 && (t[0] == '-' || t[0] == '+');
    let ds = if signed {
        t.drop_first()
    } else {
        t
    };
    if ds.len() == 0 || !all_digits(ds) {
        None
    } else {
        let v = digits_val(ds);
        if neg {
            if v <= 0x8000_0000_0000_0000 {
                Some((-(v as int)) as i64)
            } else {
                None
            }
        } else {
            if v <= 0x7fff_ffff_ffff_ffff {
                Some(v as i64)
            } else {
                None
            }
        }
    }
}

/// The primitive a token names; `vec` is an alias for `cons`.
pub open spec fn prim_of(t: Seq<char>) -> Option<Prim> {
    if t == "add"@ {
        Some(Prim::Add)
    } else if t == "mul"@ {
        Some(Prim::Mul)
    } else if t == "div"@ {
        Some(Prim::Div)
    } else if t == "eq"@ {
        Some(Prim::Eq)
    } else if t == "lt"@ {
        Some(Prim::Lt)
    } else if t == "neg"@ {
        Some(Prim::Neg)
    } else if t == "s"@ {
        Some(Prim::S)
    } else if t == "c"@ {
        Some(Prim::C)
    } else if t == "b"@ {
        Some(Prim::B)
    } else if t == "i"@ {
        Some(Prim::I)
    } else if t == "f"@ {
        Some(Prim::F)
    } else if t == "t"@ {
        Some(Prim::T)
    } else if t == "cons"@ || t == "vec"@ {
        Some(Prim::Cons)
    } else if t == "car"@ {
        Some(Prim::Car)
    } else if t == "cdr"@ {
        Some(Prim::Cdr)
    } else if t == "nil"@ {
        Some(Prim::Nil)
    } else if t == "isnil"@ {
        Some(Prim::Isnil)
    } else {
        None
    }
}

/// The reserved tokens: accepted by the tokenizer, reducible by nothing.
pub open spec fn is_reserved(t: Seq<char>) -> bool {
    t == "mod"@ || t == "dem"@
}

/// Index of the most recent definition of a name, if any (a later
/// definition of the same name shadows an earlier one).
pub open spec fn idx_back(names: Seq<Seq<char>>, t: Seq<char>, k: int) -> Option<int>
    decreases k + 1,
{
    if k < 0 || k >= names.len() {
        None
    } else if names[k] == t {
        Some(k)
    } else {
        idx_back(names, t, k - 1)
    }
}

/// Name lookup over the whole table.
pub open spec fn name_idx(names: Seq<Seq<char>>, t: Seq<char>) -> Option<int> {
    idx_back(names, t, names.len() - 1)
}

/// One expression starting at token `i`: `ap` expression pairs, a list in
/// parentheses, a primitive, an integer, a known name, or a free name
/// beginning with `:` or `x`. Returns the term with the index of the first
/// unconsumed token.
pub open spec fn parse_spec(names: Seq<Seq<char>>, toks: Seq<Seq<char>>, i: int, fuel: nat) -> Option<
    (Term, int),
>
    decreases fuel, 0int,
{
    if fuel == 0 || i < 0 || i >= toks.len() {
        None
    } else {
        let t = toks[i];
        if t == "ap"@ {
            match parse_spec(names, toks, i + 1, (fuel - 1) as nat) {
                None => None,
                Some((e1, j)) => match parse_spec(names, toks, j, (fuel - 1) as nat) {
                    None => None,
                    Some((e2, k)) => Some((ap(e1, e2), k)),
                },
            }
        } else if t == "("@ {
            parse_list_spec(names, toks, i + 1, (fuel - 1) as nat)
        } else if is_reserved(t) {
            None
        } else {
            match prim_of(t) {
                Some(p) => Some((Term::Op(p), i + 1)),
                None => match num_of(t) {
                    Some(n) => Some((Term::Num(n), i + 1)),
                    None => match name_idx(names, t) {
                        Some(k) => Some((Term::Var(k as usize), i + 1)),
                        None => if t.len() > 0 && (t[0] == ':' || t[0] == 'x') {
                            Some((Term::Free, i + 1))
                        } else {
                            None
                        },
                    },
                },
            }
        }
    }
}

/// The elements of a parenthesised list, commas optional, closed by `)`.
pub open spec fn parse_list_spec(
    names: Seq<Seq<char>>,
    toks: Seq<Seq<char>>,
    i: int,
    fuel: nat,
) -> Option<(Term, int)>
    decreases fuel, 1int,
{
    if fuel == 0 || i < 0 || i >= toks.len() {
        None
    } else if toks[i] == ")"@ {
        Some((Term::Op(Prim::Nil), i + 1))
    } else {
        match parse_spec(names, toks, i, (fuel - 1) as nat) {
            None => None,
            Some((x, j)) => {
                let j2 = if j < toks.len() && toks[j] == ","@ {
                    j + 1
                } else {
                    j
                };
                match parse_list_spec(names, toks, j2, (fuel - 1) as nat) {
                    None => None,
                    Some((rest, k)) => Some((cons_cell(x, rest), k)),
                }
            },
        }
    }
}

/// Token equality against a literal.
fn tok_is(t: &Vec<char>, kw: &str) -> (r: bool)
    ensures
        r == (t@ == kw@),
{
    let n = kw.unicode_len();
    if t.len() != n {
        return false;
    }
    let mut i: usize = 0;
    while i < n
        invariant
            i <= n,
            n == kw@.len(),
            n == t@.len(),
            forall|j: int| 0 <= j < i ==> t@[j] == kw@[j],
        decreases n - i,
    {
        if t[i] != kw.get_char(i) {
            return false;
        }
        i = i + 1;
    }
    proof {
        assert(t@ =~= kw@);
    }
    true
}

/// Character-vector equality.
fn chars_eq(a: &Vec<char>, b: &Vec<char>) -> (r: bool)
    ensures
        r == (a@ == b@),
{
    if a.len() != b.len() {
        return false;
    }
    let mut i: usize = 0;
    while i < a.len()
        invariant
            i <= a@.len(),
            a@.len() == b@.len(),
            forall|j: int| 0 <= j < i ==> a@[j] == b@[j],
        decreases a@.len() - i,
    {
        if a[i] != b[i] {
            return false;
        }
        i = i + 1;
    }
    proof {
        assert(a@ =~= b@);
    }
    true
}

/// Executable primitive lookup, equal to `prim_of`.
fn prim_of_tok(t: &Vec<char>) -> (r: Option<Prim>)
    ensures
        r == prim_of(t@),
{
    if tok_is(t, "add") {
        Some(Prim::Add)
    } else if tok_is(t, "mul") {
        Some(Prim::Mul)
    } else if tok_is(t, "div") {
        Some(Prim::Div)
    } else if tok_is(t, "eq") {
        Some(Prim::Eq)
    } else if tok_is(t, "lt") {
        Some(Prim::Lt)
    } else if tok_is(t, "neg") {
        Some(Prim::Neg)
    } else if tok_is(t, "s") {
        Some(Prim::S)
    } else if tok_is(t, "c") {
        Some(Prim::C)
    } else if tok_is(t, "b") {
        Some(Prim::B)
    } else if tok_is(t, "i") {
        Some(Prim::I)
    } else if tok_is(t, "f") {
        Some(Prim::F)
    } else if tok_is(t, "t") {
        Some(Prim::T)
    } else if tok_is(t, "cons") || tok_is(t, "vec") {
        Some(Prim::Cons)
    } else if tok_is(t, "car") {
        Some(Prim::Car)
    } else if tok_is(t, "cdr") {
        Some(Prim::Cdr)
    } else if tok_is(t, "nil") {
        Some(Prim::Nil)
    } else if tok_is(t, "isnil") {
        Some(Prim::Isnil)
    } else {
        None
    }
}

/// One digit-string step: extending the prefix multiplies by ten.
proof fn lemma_digits_step(s: Seq<char>, a: int, k: int)
    requires
        0 <= a <= k < s.len(),
    ensures
        digits_val(s.subrange(a, k + 1)) == digits_val(s.subrange(a, k)) * 10 + digit_val(s[k]),
{
    assert(s.subrange(a, k + 1).drop_last() =~= s.subrange(a, k));
    assert(s.subrange(a, k + 1).last() == s[k]);
}

/// Executable number parse, equal to `num_of`.
fn num_of_tok(t: &Vec<char>) -> (r: Option<i64>)
    ensures
        r == num_of(t@),
{
    if t.len() == 0 {
        return None;
    }
    let c0 = t[0];
    let neg = c0 == '-';
    let signed = c0 == '-' || c0 == '+';
    let start: usize = if signed {
        1
    } else {
        0
    };
    if t.len() == start {
        return None;
    }
    let ghost ds = if signed {
        t@.drop_first()
    } else {
        t@
    };
    proof {
        assert(ds =~= t@.subrange(start as int, t@.len() as int));
    }
    let mut acc: u64 = 0;
    let mut k: usize = start;
    proof {
        assert(t@.subrange(start as int, start as int) =~= Seq::<char>::empty());
    }
    while k < t.len()
        invariant
            start <= k <= t@.len(),
            start <= 1,
            signed == ((t@.len() > 0) && (t@[0] == '-' || t@[0] == '+')),
            signed ==> start == 1,
            !signed ==> start == 0,
            ds == t@.subrange(start as int, t@.len() as int),
            forall|j: int| start <= j < k ==> is_digit(t@[j]),
            digits_val(t@.subrange(start as int, k as int)) <= 0x8000_0000_0000_0000 ==> acc
                == digits_val(t@.subrange(start as int, k as int)),
            digits_val(t@.subrange(start as int, k as int)) > 0x8000_0000_0000_0000 ==> acc
                > 0x8000_0000_0000_0000,
        decreases t@.len() - k,
    {
        let c = t[k];
        let cv = c as u32;
        if cv < 48 || cv > 57 {
            proof {
                let sg = (t@.len() > 0) && (t@[0] == '-' || t@[0] == '+');
                let ds2 = if sg { t@.drop_first() } else { t@ };
                assert(sg == signed);
                assert(ds2 == ds);
                assert(0 <= k - start as int);
                assert((k - start as int) < ds2.len());
                assert(ds2[k - start as int] == t@[k as int]);
                assert(!is_digit(ds2[k - start as int]));
                assert(!all_digits(ds2));
                assert(num_of(t@) is None);
            }
            return None;
        }
        let d: u64 = (cv - 48) as u64;
        let ghost pv = digits_val(t@.subrange(start as int, k as int));
        let ghost nv = digits_val(t@.subrange(start as int, k as int + 1));
        proof {
            lemma_digits_step(t@, start as int, k as int);
            assert(nv == pv * 10 + digit_val(t@[k as int]));
            assert(digit_val(t@[k as int]) == d as nat);
        }
        if acc > 0x8000_0000_0000_0000u64 {
            proof {
                assert(pv > 0x8000_0000_0000_0000);
                assert(pv * 10 >= pv);
                assert(nv > 0x8000_0000_0000_0000);
            }
            acc = 0x8000_0000_0000_0001u64;
        } else if acc > 922337203685477580u64 {
            proof {
                assert(pv == acc as nat);
                assert(pv >= 922337203685477581);
                assert(pv * 10 >= 9223372036854775810);
                assert(nv > 0x8000_0000_0000_0000);
            }
            acc = 0x8000_0000_0000_0001u64;
        } else {
            proof {
                assert(pv == acc as nat);
                assert(pv * 10 == acc * 10);
            }
            acc = acc * 10 + d;
            proof {
                assert(acc as nat == nv);
            }
        }
        k = k + 1;
    }
    proof {
        assert(t@.subrange(start as int, t@.len() as int) == ds);
        assert forall|j: int| 0 <= j < ds.len() implies is_digit(ds[j]) by {
            assert(ds[j] == t@[start + j]);
        }
        assert(all_digits(ds));
        assert(digits_val(ds) == digits_val(t@.subrange(start as int, t@.len() as int)));
    }
    if neg {
        if acc <= 0x8000_0000_0000_0000u64 {
            let n: i64 = if acc == 0x8000_0000_0000_0000u64 {
                i64::MIN
            } else {
                -(acc as i64)
            };
            Some(n)
        } else {
            None
        }
    } else {
        if acc <= 0x7fff_ffff_ffff_ffffu64 {
            Some(acc as i64)
        } else {
            None
        }
    }
}

/// Executable name lookup, equal to `name_idx`.
fn name_idx_of(names: &Vec<Vec<char>>, t: &Vec<char>) -> (r: Option<usize>)
    ensures
        match name_idx(seq_views(names@), t@) {
            Some(k) => r matches Some(u) && u as int == k,
            None => r is None,
        },
{
    let mut k: usize = names.len();
    while k > 0
        invariant
            k <= names@.len(),
            name_idx(seq_views(names@), t@) == idx_back(seq_views(names@), t@, k as int - 1),
        decreases k,
    {
        k = k - 1;
        if chars_eq(&names[k], t) {
            proof {
                assert(seq_views(names@)[k as int] == names@[k as int]@);
            }
            return Some(k);
        }
        proof {
            assert(seq_views(names@)[k as int] == names@[k as int]@);
        }
    }
    None
}

/// Executable parser, equal to `parse_spec`.
pub fn parse_at(names: &Vec<Vec<char>>, toks: &Vec<Vec<char>>, i: usize, fuel: u64) -> (res: Result<
    (Term, usize),
    InterpError,
>)
    ensures
        match parse_spec(seq_views(names@), seq_views(toks@), i as int, fuel as nat) {
            Some(p) => res matches Ok(q) && q.0 == p.0 && q.1 as int == p.1,
            None => res == Err::<(Term, usize), InterpError>(InterpError::Parse),
        },
    decreases fuel as nat, 0int,
{
    if fuel == 0 || i >= toks.len() {
        return Err(InterpError::Parse);
    }
    proof {
        assert(seq_views(toks@)[i as int] == toks@[i as int]@);
    }
    let t = &toks[i];
    if tok_is(t, "ap") {
        match parse_at(names, toks, i + 1, fuel - 1) {
            Err(e) => Err(e),
            Ok((e1, j)) => match parse_at(names, toks, j, fuel - 1) {
                Err(e) => Err(e),
                Ok((e2, k)) => Ok((Term::Ap(Box::new(e1), Box::new(e2)), k)),
            },
        }
    } else if tok_is(t, "(") {
        parse_list_at(names, toks, i + 1, fuel - 1)
    } else if tok_is(t, "mod") || tok_is(t, "dem") {
        Err(InterpError::Parse)
    } else {
        match prim_of_tok(t) {
            Some(p) => Ok((Term::Op(p), i + 1)),
            None => match num_of_tok(t) {
                Some(n) => Ok((Term::Num(n), i + 1)),
                None => match name_idx_of(names, t) {
                    Some(k) => Ok((Term::Var(k), i + 1)),
                    None => {
                        if t.len() > 0 && (t[0] == ':' || t[0] == 'x') {
                            Ok((Term::Free, i + 1))
                        } else {
                            Err(InterpError::Parse)
                        }
                    },
                },
            },
        }
    }
}

/// Executable list parser, equal to `parse_list_spec`.
fn parse_list_at(names: &Vec<Vec<char>>, toks: &Vec<Vec<char>>, i: usize, fuel: u64) -> (res: Result<
    (Term, usize),
    InterpError,
>)
    ensures
        match parse_list_spec(seq_views(names@), seq_views(toks@), i as int, fuel as nat) {
            Some(p) => res matches Ok(q) && q.0 == p.0 && q.1 as int == p.1,
            None => res == Err::<(Term, usize), InterpError>(InterpError::Parse),
        },
    decreases fuel as nat, 1int,
{
    if fuel == 0 || i >= toks.len() {
        return Err(InterpError::Parse);
    }
    proof {
        assert(seq_views(toks@)[i as int] == toks@[i as int]@);
    }
    if tok_is(&toks[i], ")") {
        return Ok((Term::Op(Prim::Nil), i + 1));
    }
    match parse_at(names, toks, i, fuel - 1) {
        Err(e) => Err(e),
        Ok((x, j)) => {
            let j2: usize = if j < toks.len() {
                proof {
                    assert(seq_views(toks@)[j as int] == toks@[j as int]@);
                }
                if tok_is(&toks[j], ",") {
                    j + 1
                } else {
                    j
                }
            } else {
                j
            };
            match parse_list_at(names, toks, j2, fuel - 1) {
                Err(e) => Err(e),
                Ok((rest, k)) => Ok((
                    Term::Ap(
                        Box::new(Term::Ap(Box::new(Term::Op(Prim::Cons)), Box::new(x))),
                        Box::new(rest),
                    ),
                    k,
                )),
            }
        },
    }
}

/// Finds the next separator at or after `i`, or the length if none.
fn find_sep_at(s: &Vec<char>, sep: char, i: usize) -> (j: usize)
    requires
        i <= s@.len(),
    ensures
        j as int == find_sep(s@, sep, i as int),
        i <= j <= s@.len(),
        j < s@.len() ==> s@[j as int] == sep,
{
    let mut j = i;
    loop
        invariant
            i <= j <= s@.len(),
            find_sep(s@, sep, i as int) == find_sep(s@, sep, j as int),
        decreases s@.len() - j,
    {
        if j >= s.len() {
            return j;
        }
        if s[j] == sep {
            return j;
        }
        j = j + 1;
    }
}

/// Splits a character vector on a separator, exactly as `split_from` says.
pub fn split_chars(s: &Vec<char>, sep: char) -> (toks: Vec<Vec<char>>)
    ensures
        seq_views(toks@) == split_from(s@, sep, 0),
{
    let mut out: Vec<Vec<char>> = Vec::new();
    let mut i: usize = 0;
    loop
        invariant
            i <= s@.len(),
            split_from(s@, sep, 0) =~= seq_views(out@) + split_from(s@, sep, i as int),
        decreases s@.len() - i,
    {
        let j = find_sep_at(s, sep, i);
        // copy the token
        let mut cur: Vec<char> = Vec::new();
        let mut u = i;
        while u < j
            invariant
                i <= u <= j <= s@.len(),
                cur@ == s@.subrange(i as int, u as int),
            decreases j - u,
        {
            cur.push(s[u]);
            proof {
                assert(cur@ =~= s@.subrange(i as int, u + 1));
            }
            u = u + 1;
        }
        proof {
            assert(cur@ =~= s@.subrange(i as int, j as int));
        }
        let ghost prev = seq_views(out@);
        if j >= s.len() {
            out.push(cur);
            proof {
                assert(seq_views(out@) =~= prev.push(cur@));
                assert(split_from(s@, sep, i as int) =~= seq![
                    s@.subrange(i as int, s@.len() as int),
                ]);
                assert(seq_views(out@) + Seq::<Seq<char>>::empty() =~= seq_views(out@));
                assert(seq_views(out@) =~= split_from(s@, sep, 0));
            }
            return out;
        }
        out.push(cur);
        proof {
            assert(seq_views(out@) =~= prev.push(cur@));
            assert(split_from(s@, sep, i as int) == seq![s@.subrange(i as int, j as int)]
                + split_from(s@, sep, j + 1));
            assert(split_from(s@, sep, 0) =~= seq_views(out@) + split_from(s@, sep, j + 1));
        }
        i = j + 1;
    }
}

} // verus!
