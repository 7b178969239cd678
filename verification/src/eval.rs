//! Call-by-name reduction to weak head normal form, with a fuel bound.
//!
//! The meaning of evaluation is fixed by the specification function
//! `eval_spec`; the executable `eval` returns exactly what `eval_spec` says,
//! including the distinction between a stuck reduction (a fatal error) and an
//! exhausted fuel budget. Fuel bounds the nesting depth of reduction, so the
//! interpreter always terminates; a well-behaved protocol never comes near
//! the budget the driver supplies.

use vstd::prelude::*;
use crate::term::{arity, arity_of, ap, bool_term, term_clone, InterpError, Prim, Term};

verus! {

/// Outcome of a specification-level evaluation.
pub enum Ev {
    /// Reached this weak head normal form.
    Val(Term),
    /// Reduction demanded a value of an impossible shape.
    Stuck,
    /// The fuel budget ran out.
    Out,
}

/// Truncating integer division (toward zero), the `div` primitive's rule.
pub open spec fn div_trunc(a: int, b: int) -> int {
    if a >= 0 && b > 0 {
        a / b
    } else if a < 0 && b < 0 {
        (-a) / (-b)
    } else if a < 0 && b > 0 {
        -((-a) / b)
    } else if a >= 0 && b < 0 {
        -(a / (-b))
    } else {
        0
    }
}

/// Is `v` a pair cell `ap ap cons hd tl`?
pub open spec fn is_cons_cell(v: Term) -> bool {
    match v {
        Term::Ap(l, _) => match *l {
            Term::Ap(c, _) => *c == Term::Op(Prim::Cons),
            _ => false,
        },
        _ => false,
    }
}

/// Reduction to weak head normal form. The environment maps a variable
/// index to its definition. Each recursive step spends one unit of fuel;
/// `Ev::Out` means the budget was too small, `Ev::Stuck` a genuine error.
pub open spec fn eval_spec(env: Seq<Term>, t: Term, fuel: nat) -> Ev
    decreases fuel, 0int,
{
    if fuel == 0 {
        Ev::Out
    } else {
        let f = (fuel - 1) as nat;
        match t {
            Term::Num(_) => Ev::Val(t),
            Term::Op(_) => Ev::Val(t),
            Term::Free => Ev::Stuck,
            Term::Var(i) => if i < env.len() {
                eval_spec(env, env[i as int], f)
            } else {
                Ev::Stuck
            },
            Term::Ap(l, r) => match eval_spec(env, *l, f) {
                Ev::Val(h) => apply_spec(env, h, *r, f),
                e => e,
            },
        }
    }
}

/// Applies the already-reduced head `h` to one more argument `r`: fires the
/// primitive rule when `h` becomes saturated, else yields the partial
/// application as a value.
pub open spec fn apply_spec(env: Seq<Term>, h: Term, r: Term, fuel: nat) -> Ev
    decreases fuel, 2int,
{
    match h {
        Term::Op(p) => if arity(p) == 1 {
            rule1_spec(env, p, r, fuel)
        } else {
            Ev::Val(ap(h, r))
        },
        Term::Ap(h1, a1) => match *h1 {
            Term::Op(p) => if arity(p) == 2 {
                rule2_spec(env, p, *a1, r, fuel)
            } else if arity(p) == 3 {
                Ev::Val(ap(h, r))
            } else {
                Ev::Stuck
            },
            Term::Ap(h2, a0) => match *h2 {
                Term::Op(p) => if arity(p) == 3 {
                    rule3_spec(env, p, *a0, *a1, r, fuel)
                } else {
                    Ev::Stuck
                },
                _ => Ev::Stuck,
            },
            _ => Ev::Stuck,
        },
        _ => Ev::Stuck,
    }
}

/// The unary rules: `i x -> x`, `car p -> p t`, `cdr p -> p f`,
/// `nil x -> t`, `neg n`, and `isnil`, which accepts only `nil` or a pair.
pub open spec fn rule1_spec(env: Seq<Term>, p: Prim, x: Term, fuel: nat) -> Ev
    decreases fuel, 1int,
{
    match p {
        Prim::I => eval_spec(env, x, fuel),
        Prim::Car => eval_spec(env, ap(x, Term::Op(Prim::T)), fuel),
        Prim::Cdr => eval_spec(env, ap(x, Term::Op(Prim::F)), fuel),
        Prim::Nil => Ev::Val(Term::Op(Prim::T)),
        Prim::Neg => match eval_spec(env, x, fuel) {
            Ev::Val(v) => match v {
                Term::Num(n) => if n == i64::MIN {
                    Ev::Stuck
                } else {
                    Ev::Val(Term::Num((-n) as i64))
                },
                _ => Ev::Stuck,
            },
            e => e,
        },
        Prim::Isnil => match eval_spec(env, x, fuel) {
            Ev::Val(v) => if v == Term::Op(Prim::Nil) {
                Ev::Val(Term::Op(Prim::T))
            } else if is_cons_cell(v) {
                Ev::Val(Term::Op(Prim::F))
            } else {
                Ev::Stuck
            },
            e => e,
        },
        _ => Ev::Stuck,
    }
}

/// The binary rules: `t x y -> x`, `f x y -> y`, and the arithmetic and
/// comparison primitives, which force both operands to numbers. Arithmetic
/// that would leave the 64-bit range is a fatal error.
pub open spec fn rule2_spec(env: Seq<Term>, p: Prim, x: Term, y: Term, fuel: nat) -> Ev
    decreases fuel, 1int,
{
    match p {
        Prim::T => eval_spec(env, x, fuel),
        Prim::F => eval_spec(env, y, fuel),
        Prim::Add | Prim::Mul | Prim::Div | Prim::Eq | Prim::Lt => match eval_spec(env, x, fuel) {
            Ev::Val(xv) => match xv {
                Term::Num(a) => match eval_spec(env, y, fuel) {
                    Ev::Val(yv) => match yv {
                        Term::Num(b) => arith_spec(p, a, b),
                        _ => Ev::Stuck,
                    },
                    e => e,
                },
                _ => Ev::Stuck,
            },
            e => e,
        },
        _ => Ev::Stuck,
    }
}

/// The result of a saturated arithmetic or comparison primitive.
pub open spec fn arith_spec(p: Prim, a: i64, b: i64) -> Ev {
    match p {
        Prim::Add => if i64::MIN <= a + b <= i64::MAX {
            Ev::Val(Term::Num((a + b) as i64))
        } else {
            Ev::Stuck
        },
        Prim::Mul => if i64::MIN <= a * b <= i64::MAX {
            Ev::Val(Term::Num((a * b) as i64))
        } else {
            Ev::Stuck
        },
        Prim::Div => if b == 0 {
            Ev::Stuck
        } else {
            let q = div_trunc(a as int, b as int);
            if i64::MIN <= q <= i64::MAX {
                Ev::Val(Term::Num(q as i64))
            } else {
                Ev::Stuck
            }
        },
        Prim::Eq => Ev::Val(bool_term(a == b)),
        Prim::Lt => Ev::Val(bool_term(a < b)),
        _ => Ev::Stuck,
    }
}

/// The ternary rules: `s x y z -> (x z)(y z)`, `c x y z -> (x z) y`,
/// `b x y z -> x (y z)`, and `cons x y z -> (z x) y`.
pub open spec fn rule3_spec(env: Seq<Term>, p: Prim, x0: Term, x1: Term, x2: Term, fuel: nat) -> Ev
    decreases fuel, 1int,
{
    match p {
        Prim::S => eval_spec(env, ap(ap(x0, x2), ap(x1, x2)), fuel),
        Prim::C => eval_spec(env, ap(ap(x0, x2), x1), fuel),
        Prim::B => eval_spec(env, ap(x0, ap(x1, x2)), fuel),
        Prim::Cons => eval_spec(env, ap(ap(x2, x0), x1), fuel),
        _ => Ev::Stuck,
    }
}

/// Executable reduction to weak head normal form; returns exactly what
/// `eval_spec` prescribes.
pub fn eval(env: &Vec<Term>, t: &Term, fuel: u64) -> (res: Result<Term, InterpError>)
    ensures
        match eval_spec(env@, *t, fuel as nat) {
            Ev::Val(v) => res == Ok::<Term, InterpError>(v),
            Ev::Stuck => res == Err::<Term, InterpError>(InterpError::Eval),
            Ev::Out => res == Err::<Term, InterpError>(InterpError::Fuel),
        },
    decreases fuel as nat, 0int,
{
    if fuel == 0 {
        return Err(InterpError::Fuel);
    }
    let f = fuel - 1;
    match t {
        Term::Num(_) => Ok(term_clone(t)),
        Term::Op(_) => Ok(term_clone(t)),
        Term::Free => Err(InterpError::Eval),
        Term::Var(i) => if *i < env.len() {
            let d = term_clone(&env[*i]);
            eval(env, &d, f)
        } else {
            Err(InterpError::Eval)
        },
        Term::Ap(l, r) => match eval(env, &**l, f) {
            Ok(h) => apply(env, h, &**r, f),
            e => e,
        },
    }
}

/// Executable counterpart of `apply_spec`.
pub fn apply(env: &Vec<Term>, h: Term, r: &Term, fuel: u64) -> (res: Result<Term, InterpError>)
    ensures
        match apply_spec(env@, h, *r, fuel as nat) {
            Ev::Val(v) => res == Ok::<Term, InterpError>(v),
            Ev::Stuck => res == Err::<Term, InterpError>(InterpError::Eval),
            Ev::Out => res == Err::<Term, InterpError>(InterpError::Fuel),
        },
    decreases fuel as nat, 2int,
{
    match h {
        Term::Op(p) => if arity_of(p) == 1 {
            rule1(env, p, r, fuel)
        } else {
            Ok(Term::Ap(Box::new(Term::Op(p)), Box::new(term_clone(r))))
        },
        Term::Ap(h1, a1) => match *h1 {
            Term::Op(p) => if arity_of(p) == 2 {
                rule2(env, p, &*a1, r, fuel)
            } else if arity_of(p) == 3 {
                Ok(Term::Ap(
                    Box::new(Term::Ap(Box::new(Term::Op(p)), a1)),
                    Box::new(term_clone(r)),
                ))
            } else {
                Err(InterpError::Eval)
            },
            Term::Ap(h2, a0) => match *h2 {
                Term::Op(p) => if arity_of(p) == 3 {
                    rule3(env, p, &*a0, &*a1, r, fuel)
                } else {
                    Err(InterpError::Eval)
                },
                _ => Err(InterpError::Eval),
            },
            _ => Err(InterpError::Eval),
        },
        _ => Err(InterpError::Eval),
    }
}

/// Executable counterpart of `rule1_spec`.
fn rule1(env: &Vec<Term>, p: Prim, x: &Term, fuel: u64) -> (res: Result<Term, InterpError>)
    ensures
        match rule1_spec(env@, p, *x, fuel as nat) {
            Ev::Val(v) => res == Ok::<Term, InterpError>(v),
            Ev::Stuck => res == Err::<Term, InterpError>(InterpError::Eval),
            Ev::Out => res == Err::<Term, InterpError>(InterpError::Fuel),
        },
    decreases fuel as nat, 1int,
{
    match p {
        Prim::I => eval(env, x, fuel),
        Prim::Car => {
            let e = Term::Ap(Box::new(term_clone(x)), Box::new(Term::Op(Prim::T)));
            eval(env, &e, fuel)
        },
        Prim::Cdr => {
            let e = Term::Ap(Box::new(term_clone(x)), Box::new(Term::Op(Prim::F)));
            eval(env, &e, fuel)
        },
        Prim::Nil => Ok(Term::Op(Prim::T)),
        Prim::Neg => match eval(env, x, fuel) {
            Ok(v) => match v {
                Term::Num(n) => if n == i64::MIN {
                    Err(InterpError::Eval)
                } else {
                    Ok(Term::Num(-n))
                },
                _ => Err(InterpError::Eval),
            },
            e => e,
        },
        Prim::Isnil => match eval(env, x, fuel) {
            Ok(v) => match v {
                Term::Op(Prim::Nil) => Ok(Term::Op(Prim::T)),
                Term::Ap(l, _) => match *l {
                    Term::Ap(c, _) => match *c {
                        Term::Op(Prim::Cons) => Ok(Term::Op(Prim::F)),
                        _ => Err(InterpError::Eval),
                    },
                    _ => Err(InterpError::Eval),
                },
                _ => Err(InterpError::Eval),
            },
            e => e,
        },
        _ => Err(InterpError::Eval),
    }
}

/// Executable counterpart of `rule2_spec`.
fn rule2(env: &Vec<Term>, p: Prim, x: &Term, y: &Term, fuel: u64) -> (res: Result<Term, InterpError>)
    ensures
        match rule2_spec(env@, p, *x, *y, fuel as nat) {
            Ev::Val(v) => res == Ok::<Term, InterpError>(v),
            Ev::Stuck => res == Err::<Term, InterpError>(InterpError::Eval),
            Ev::Out => res == Err::<Term, InterpError>(InterpError::Fuel),
        },
    decreases fuel as nat, 1int,
{
    match p {
        Prim::T => eval(env, x, fuel),
        Prim::F => eval(env, y, fuel),
        Prim::Add | Prim::Mul | Prim::Div | Prim::Eq | Prim::Lt => match eval(env, x, fuel) {
            Ok(xv) => match xv {
                Term::Num(a) => match eval(env, y, fuel) {
                    Ok(yv) => match yv {
                        Term::Num(b) => arith(p, a, b),
                        _ => Err(InterpError::Eval),
                    },
                    e => e,
                },
                _ => Err(InterpError::Eval),
            },
            e => e,
        },
        _ => Err(InterpError::Eval),
    }
}

/// Executable counterpart of `arith_spec`; out-of-range results are errors.
fn arith(p: Prim, a: i64, b: i64) -> (res: Result<Term, InterpError>)
    ensures
        match arith_spec(p, a, b) {
            Ev::Val(v) => res == Ok::<Term, InterpError>(v),
            Ev::Stuck => res == Err::<Term, InterpError>(InterpError::Eval),
            Ev::Out => res == Err::<Term, InterpError>(InterpError::Fuel),
        },
{
    match p {
        Prim::Add => match a.checked_add(b) {
            Some(s) => Ok(Term::Num(s)),
            None => Err(InterpError::Eval),
        },
        Prim::Mul => match a.checked_mul(b) {
            Some(s) => Ok(Term::Num(s)),
            None => Err(InterpError::Eval),
        },
        Prim::Div => if b == 0 {
            Err(InterpError::Eval)
        } else {
            match a.checked_div(b) {
                Some(q) => Ok(Term::Num(q)),
                None => Err(InterpError::Eval),
            }
        },
        Prim::Eq => Ok(if a == b {
            Term::Op(Prim::T)
        } else {
            Term::Op(Prim::F)
        }),
        Prim::Lt => Ok(if a < b {
            Term::Op(Prim::T)
        } else {
            Term::Op(Prim::F)
        }),
        _ => Err(InterpError::Eval),
    }
}

/// Executable counterpart of `rule3_spec`.
fn rule3(env: &Vec<Term>, p: Prim, x0: &Term, x1: &Term, x2: &Term, fuel: u64) -> (res: Result<
    Term,
    InterpError,
>)
    ensures
        match rule3_spec(env@, p, *x0, *x1, *x2, fuel as nat) {
            Ev::Val(v) => res == Ok::<Term, InterpError>(v),
            Ev::Stuck => res == Err::<Term, InterpError>(InterpError::Eval),
            Ev::Out => res == Err::<Term, InterpError>(InterpError::Fuel),
        },
    decreases fuel as nat, 1int,
{
    match p {
        Prim::S => {
            let e = Term::Ap(
                Box::new(Term::Ap(Box::new(term_clone(x0)), Box::new(term_clone(x2)))),
                Box::new(Term::Ap(Box::new(term_clone(x1)), Box::new(term_clone(x2)))),
            );
            eval(env, &e, fuel)
        },
        Prim::C => {
            let e = Term::Ap(
                Box::new(Term::Ap(Box::new(term_clone(x0)), Box::new(term_clone(x2)))),
                Box::new(term_clone(x1)),
            );
            eval(env, &e, fuel)
        },
        Prim::B => {
            let e = Term::Ap(
                Box::new(term_clone(x0)),
                Box::new(Term::Ap(Box::new(term_clone(x1)), Box::new(term_clone(x2)))),
            );
            eval(env, &e, fuel)
        },
        Prim::Cons => {
            let e = Term::Ap(
                Box::new(Term::Ap(Box::new(term_clone(x2)), Box::new(term_clone(x0)))),
                Box::new(term_clone(x1)),
            );
            eval(env, &e, fuel)
        },
        _ => Err(InterpError::Eval),
    }
}

} // verus!
