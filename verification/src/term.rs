//! The expression model: primitives, terms, and the shape predicates that the
//! evaluator and the codec share.

use vstd::prelude::*;

verus! {

/// The closed set of primitive symbols of the language.
#[derive(Clone, Copy, PartialEq, Eq, Structural, Debug)]
pub enum Prim {
    Add,
    Mul,
    Div,
    Eq,
    Lt,
    Neg,
    S,
    C,
    B,
    I,
    F,
    T,
    Cons,
    Car,
    Cdr,
    Nil,
    Isnil,
}

/// How many arguments a primitive consumes before its reduction rule fires.
pub open spec fn arity(p: Prim) -> nat {
    match p {
        Prim::Add | Prim::Mul | Prim::Div | Prim::Eq | Prim::Lt => 2,
        Prim::Neg | Prim::I | Prim::Car | Prim::Cdr | Prim::Nil | Prim::Isnil => 1,
        Prim::T | Prim::F => 2,
        Prim::S | Prim::C | Prim::B | Prim::Cons => 3,
    }
}

/// Executable arity table, equal to the specification-level `arity`.
pub fn arity_of(p: Prim) -> (n: u8)
    ensures
        n as nat == arity(p),
{
    match p {
        Prim::Add | Prim::Mul | Prim::Div | Prim::Eq | Prim::Lt => 2,
        Prim::Neg | Prim::I | Prim::Car | Prim::Cdr | Prim::Nil | Prim::Isnil => 1,
        Prim::T | Prim::F => 2,
        Prim::S | Prim::C | Prim::B | Prim::Cons => 3,
    }
}

/// A term of the language.
///
/// `Var` holds an index into the environment's definition table. `Free`
/// stands for an identifier that the parser admitted (a name beginning with
/// `:` or `x` that is not yet bound); demanding its value is a fatal error.
#[derive(PartialEq, Eq, Debug)]
pub enum Term {
    Num(i64),
    Var(usize),
    Free,
    Op(Prim),
    Ap(Box<Term>, Box<Term>),
}

/// Builds an application node (specification level).
pub open spec fn ap(l: Term, r: Term) -> Term {
    Term::Ap(Box::new(l), Box::new(r))
}

/// `cons` applied to two arguments: the pair cell `ap ap cons hd tl`.
pub open spec fn cons_cell(hd: Term, tl: Term) -> Term {
    ap(ap(Term::Op(Prim::Cons), hd), tl)
}

/// The boolean results of comparisons: `t` and `f` with no arguments.
pub open spec fn bool_term(b: bool) -> Term {
    if b {
        Term::Op(Prim::T)
    } else {
        Term::Op(Prim::F)
    }
}

/// A fully reduced data value: an integer, `nil`, or a `cons` cell whose two
/// fields are themselves data values.
pub open spec fn is_data(d: Term) -> bool
    decreases d,
{
    match d {
        Term::Num(_) => true,
        Term::Op(p) => p == Prim::Nil,
        Term::Ap(l, tl) => match *l {
            Term::Ap(c, hd) => *c == Term::Op(Prim::Cons) && is_data(*hd) && is_data(*tl),
            _ => false,
        },
        _ => false,
    }
}

/// Number of `Ap` nodes along the left spine of a term.
pub open spec fn spine_len(t: Term) -> nat
    decreases t,
{
    match t {
        Term::Ap(l, _) => 1 + spine_len(*l),
        _ => 0,
    }
}

/// The head at the bottom of the left spine.
pub open spec fn spine_head(t: Term) -> Term
    decreases t,
{
    match t {
        Term::Ap(l, _) => spine_head(*l),
        _ => t,
    }
}

/// Weak head normal form: a number, or a primitive applied to fewer
/// arguments than its arity.
pub open spec fn is_whnf(t: Term) -> bool {
    ||| t matches Term::Num(_)
    ||| (spine_head(t) matches Term::Op(p) && spine_len(t) < arity(p))
}

/// Structural copy of a term, equal to the original.
pub fn term_clone(t: &Term) -> (r: Term)
    ensures
        r == *t,
    decreases *t,
{
    match t {
        Term::Num(n) => Term::Num(*n),
        Term::Var(i) => Term::Var(*i),
        Term::Free => Term::Free,
        Term::Op(p) => Term::Op(*p),
        Term::Ap(l, r) => Term::Ap(Box::new(term_clone(&**l)), Box::new(term_clone(&**r))),
    }
}

/// The error kinds of the interpreter. Every error is fatal to the current
/// round: the caller is expected to retry from the previous good state.
#[derive(Clone, Copy, PartialEq, Eq, Structural, Debug)]
pub enum InterpError {
    /// Unknown identifier, unterminated list, or exhausted input.
    Parse,
    /// A value of the wrong shape was demanded during reduction.
    Eval,
    /// The evaluation budget ran out before a normal form was reached.
    Fuel,
    /// A bit-string does not decode to a data value.
    Codec,
    /// The interact protocol produced a flag other than 0 or 1.
    BadFlag,
    /// The protocol asked for a round-trip to the remote server, which only
    /// the host can perform.
    NeedsSend,
}

} // verus!
