//! The laws of the evaluator: every evaluation result is a weak head normal
//! form, evaluation is idempotent, and the combinator rules hold pointwise.

use vstd::prelude::*;
use crate::term::{ap, arity, cons_cell, is_whnf, spine_head, spine_len, Prim, Term};
use crate::eval::{
    apply_spec, arith_spec, div_trunc, eval_spec, is_cons_cell, rule1_spec, rule2_spec, rule3_spec,
    Ev,
};
use crate::codec::int_abs;
use vstd::arithmetic::div_mod::{lemma_div_basics_4, lemma_div_basics_5, lemma_div_is_ordered_by_denominator};

verus! {

/// The left spine of an application extends the spine of its function.
proof fn lemma_spine_ap(l: Term, r: Term)
    ensures
        spine_head(ap(l, r)) == spine_head(l),
        spine_len(ap(l, r)) == 1 + spine_len(l),
{
}

/// A non-application term is its own spine head, with an empty spine.
proof fn lemma_spine_leaf(t: Term)
    requires
        !(t matches Term::Ap(_, _)),
    ensures
        spine_head(t) == t,
        spine_len(t) == 0,
{
}

/// Every value that evaluation reaches is a weak head normal form.
pub proof fn lemma_eval_whnf(env: Seq<Term>, t: Term, fuel: nat)
    ensures
        eval_spec(env, t, fuel) matches Ev::Val(v) ==> is_whnf(v),
    decreases fuel, 0int,
{
    if fuel > 0 {
        let f = (fuel - 1) as nat;
        match t {
            Term::Var(i) => {
                if i < env.len() {
                    lemma_eval_whnf(env, env[i as int], f);
                }
            },
            Term::Ap(l, r) => {
                lemma_eval_whnf(env, *l, f);
                match eval_spec(env, *l, f) {
                    Ev::Val(h) => {
                        lemma_apply_whnf(env, h, *r, f);
                    },
                    _ => {},
                }
            },
            _ => {},
        }
    }
}

/// `apply_spec` only ever yields weak head normal forms.
proof fn lemma_apply_whnf(env: Seq<Term>, h: Term, r: Term, fuel: nat)
    ensures
        apply_spec(env, h, r, fuel) matches Ev::Val(v) ==> is_whnf(v),
    decreases fuel, 2int,
{
    match h {
        Term::Op(p) => {
            if arity(p) == 1 {
                lemma_rule1_whnf(env, p, r, fuel);
            } else {
                lemma_spine_leaf(h);
                lemma_spine_ap(h, r);
            }
        },
        Term::Ap(h1, a1) => match *h1 {
            Term::Op(p) => {
                if arity(p) == 2 {
                    lemma_rule2_whnf(env, p, *a1, r, fuel);
                } else if arity(p) == 3 {
                    lemma_spine_leaf(*h1);
                    lemma_spine_ap(*h1, *a1);
                    lemma_spine_ap(h, r);
                }
            },
            Term::Ap(h2, a0) => match *h2 {
                Term::Op(p) => {
                    if arity(p) == 3 {
                        lemma_rule3_whnf(env, p, *a0, *a1, r, fuel);
                    }
                },
                _ => {},
            },
            _ => {},
        },
        _ => {},
    }
}

/// The unary rules only ever yield weak head normal forms.
proof fn lemma_rule1_whnf(env: Seq<Term>, p: Prim, x: Term, fuel: nat)
    ensures
        rule1_spec(env, p, x, fuel) matches Ev::Val(v) ==> is_whnf(v),
    decreases fuel, 1int,
{
    match p {
        Prim::I => lemma_eval_whnf(env, x, fuel),
        Prim::Car => lemma_eval_whnf(env, ap(x, Term::Op(Prim::T)), fuel),
        Prim::Cdr => lemma_eval_whnf(env, ap(x, Term::Op(Prim::F)), fuel),
        _ => {},
    }
}

/// The binary rules only ever yield weak head normal forms.
proof fn lemma_rule2_whnf(env: Seq<Term>, p: Prim, x: Term, y: Term, fuel: nat)
    ensures
        rule2_spec(env, p, x, y, fuel) matches Ev::Val(v) ==> is_whnf(v),
    decreases fuel, 1int,
{
    match p {
        Prim::T => lemma_eval_whnf(env, x, fuel),
        Prim::F => lemma_eval_whnf(env, y, fuel),
        _ => {},
    }
}

/// The ternary rules only ever yield weak head normal forms.
proof fn lemma_rule3_whnf(env: Seq<Term>, p: Prim, x0: Term, x1: Term, x2: Term, fuel: nat)
    ensures
        rule3_spec(env, p, x0, x1, x2, fuel) matches Ev::Val(v) ==> is_whnf(v),
    decreases fuel, 1int,
{
    match p {
        Prim::S => lemma_eval_whnf(env, ap(ap(x0, x2), ap(x1, x2)), fuel),
        Prim::C => lemma_eval_whnf(env, ap(ap(x0, x2), x1), fuel),
        Prim::B => lemma_eval_whnf(env, ap(x0, ap(x1, x2)), fuel),
        Prim::Cons => lemma_eval_whnf(env, ap(ap(x2, x0), x1), fuel),
        _ => {},
    }
}

/// A weak head normal form evaluates to itself, with fuel for its spine.
pub proof fn lemma_whnf_eval(env: Seq<Term>, v: Term, fuel: nat)
    requires
        is_whnf(v),
        fuel >= 1 + spine_len(v),
    ensures
        eval_spec(env, v, fuel) == Ev::Val(v),
    decreases v,
{
    match v {
        Term::Ap(l, r) => {
            lemma_spine_ap(*l, *r);
            assert(ap(*l, *r) == v);
            assert(spine_head(v) == spine_head(*l));
            assert(spine_len(v) == 1 + spine_len(*l));
            lemma_whnf_eval(env, *l, (fuel - 1) as nat);
            match *l {
                Term::Op(p) => {
                    lemma_spine_leaf(*l);
                    assert(arity(p) > 1);
                    assert(apply_spec(env, *l, *r, (fuel - 1) as nat) == Ev::Val(ap(*l, *r)));
                },
                Term::Ap(l2, a) => {
                    lemma_spine_ap(*l2, *a);
                    match *l2 {
                        Term::Op(p) => {
                            lemma_spine_leaf(*l2);
                            assert(spine_len(v) == 2 + spine_len(*l2));
                            assert(arity(p) == 3);
                            assert(apply_spec(env, *l, *r, (fuel - 1) as nat) == Ev::Val(
                                ap(*l, *r),
                            ));
                        },
                        Term::Ap(l3, a3) => {
                            lemma_spine_ap(*l3, *a3);
                            assert(spine_len(v) >= 3);
                            assert(false);
                        },
                        _ => {
                            lemma_spine_leaf(*l2);
                            assert(false);
                        },
                    }
                },
                _ => {
                    lemma_spine_leaf(*l);
                    assert(spine_head(v) == *l);
                    assert(false);
                },
            }
        },
        _ => {},
    }
}

/// Evaluator idempotence: evaluating an evaluation result again returns it
/// unchanged, whatever fuel either run is given (three units suffice for
/// the second, a weak head normal form's spine being at most two deep).
pub proof fn lemma_eval_idempotent(env: Seq<Term>, e: Term, v: Term, fuel: nat, fuel2: nat)
    requires
        eval_spec(env, e, fuel) == Ev::Val(v),
        fuel2 >= 3,
    ensures
        eval_spec(env, v, fuel2) == Ev::Val(v),
{
    lemma_eval_whnf(env, e, fuel);
    assert(spine_len(v) <= 2);
    lemma_whnf_eval(env, v, fuel2);
}

/// `i x = x`: identity, pointwise as one spent reduction step.
pub proof fn lemma_law_i(env: Seq<Term>, x: Term, fuel: nat)
    requires
        fuel >= 2,
    ensures
        eval_spec(env, ap(Term::Op(Prim::I), x), fuel) == eval_spec(env, x, (fuel - 1) as nat),
{
    let f1 = (fuel - 1) as nat;
    assert(eval_spec(env, Term::Op(Prim::I), f1) == Ev::Val(Term::Op(Prim::I)));
    assert(apply_spec(env, Term::Op(Prim::I), x, f1) == rule1_spec(env, Prim::I, x, f1));
    assert(rule1_spec(env, Prim::I, x, f1) == eval_spec(env, x, f1));
}

/// `t x y = x`.
pub proof fn lemma_law_t(env: Seq<Term>, x: Term, y: Term, fuel: nat)
    requires
        fuel >= 3,
    ensures
        eval_spec(env, ap(ap(Term::Op(Prim::T), x), y), fuel) == eval_spec(
            env,
            x,
            (fuel - 1) as nat,
        ),
{
    let f1 = (fuel - 1) as nat;
    let l = ap(Term::Op(Prim::T), x);
    lemma_spine_leaf(Term::Op(Prim::T));
    lemma_spine_ap(Term::Op(Prim::T), x);
    lemma_whnf_eval(env, l, f1);
    assert(apply_spec(env, l, y, f1) == rule2_spec(env, Prim::T, x, y, f1));
    assert(rule2_spec(env, Prim::T, x, y, f1) == eval_spec(env, x, f1));
}

/// `f x y = y`.
pub proof fn lemma_law_f(env: Seq<Term>, x: Term, y: Term, fuel: nat)
    requires
        fuel >= 3,
    ensures
        eval_spec(env, ap(ap(Term::Op(Prim::F), x), y), fuel) == eval_spec(
            env,
            y,
            (fuel - 1) as nat,
        ),
{
    let f1 = (fuel - 1) as nat;
    let l = ap(Term::Op(Prim::F), x);
    lemma_spine_leaf(Term::Op(Prim::F));
    lemma_spine_ap(Term::Op(Prim::F), x);
    lemma_whnf_eval(env, l, f1);
    assert(apply_spec(env, l, y, f1) == rule2_spec(env, Prim::F, x, y, f1));
    assert(rule2_spec(env, Prim::F, x, y, f1) == eval_spec(env, y, f1));
}

/// `s x y z = (x z) (y z)`.
pub proof fn lemma_law_s(env: Seq<Term>, x: Term, y: Term, z: Term, fuel: nat)
    requires
        fuel >= 4,
    ensures
        eval_spec(env, ap(ap(ap(Term::Op(Prim::S), x), y), z), fuel) == eval_spec(
            env,
            ap(ap(x, z), ap(y, z)),
            (fuel - 1) as nat,
        ),
{
    let f1 = (fuel - 1) as nat;
    let l = ap(ap(Term::Op(Prim::S), x), y);
    lemma_spine_leaf(Term::Op(Prim::S));
    lemma_spine_ap(Term::Op(Prim::S), x);
    lemma_spine_ap(ap(Term::Op(Prim::S), x), y);
    lemma_whnf_eval(env, l, f1);
    assert(apply_spec(env, l, z, f1) == rule3_spec(env, Prim::S, x, y, z, f1));
    assert(rule3_spec(env, Prim::S, x, y, z, f1) == eval_spec(env, ap(ap(x, z), ap(y, z)), f1));
}

/// `c x y z = (x z) y`.
pub proof fn lemma_law_c(env: Seq<Term>, x: Term, y: Term, z: Term, fuel: nat)
    requires
        fuel >= 4,
    ensures
        eval_spec(env, ap(ap(ap(Term::Op(Prim::C), x), y), z), fuel) == eval_spec(
            env,
            ap(ap(x, z), y),
            (fuel - 1) as nat,
        ),
{
    let f1 = (fuel - 1) as nat;
    let l = ap(ap(Term::Op(Prim::C), x), y);
    lemma_spine_leaf(Term::Op(Prim::C));
    lemma_spine_ap(Term::Op(Prim::C), x);
    lemma_spine_ap(ap(Term::Op(Prim::C), x), y);
    lemma_whnf_eval(env, l, f1);
    assert(apply_spec(env, l, z, f1) == rule3_spec(env, Prim::C, x, y, z, f1));
    assert(rule3_spec(env, Prim::C, x, y, z, f1) == eval_spec(env, ap(ap(x, z), y), f1));
}

/// `b x y z = x (y z)`.
pub proof fn lemma_law_b(env: Seq<Term>, x: Term, y: Term, z: Term, fuel: nat)
    requires
        fuel >= 4,
    ensures
        eval_spec(env, ap(ap(ap(Term::Op(Prim::B), x), y), z), fuel) == eval_spec(
            env,
            ap(x, ap(y, z)),
            (fuel - 1) as nat,
        ),
{
    let f1 = (fuel - 1) as nat;
    let l = ap(ap(Term::Op(Prim::B), x), y);
    lemma_spine_leaf(Term::Op(Prim::B));
    lemma_spine_ap(Term::Op(Prim::B), x);
    lemma_spine_ap(ap(Term::Op(Prim::B), x), y);
    lemma_whnf_eval(env, l, f1);
    assert(apply_spec(env, l, z, f1) == rule3_spec(env, Prim::B, x, y, z, f1));
    assert(rule3_spec(env, Prim::B, x, y, z, f1) == eval_spec(env, ap(x, ap(y, z)), f1));
}

/// The pair cell `ap ap cons a b` is a weak head normal form.
proof fn lemma_cons_cell_whnf(env: Seq<Term>, a: Term, b: Term, fuel: nat)
    requires
        fuel >= 3,
    ensures
        is_whnf(cons_cell(a, b)),
        spine_len(cons_cell(a, b)) == 2,
        eval_spec(env, cons_cell(a, b), fuel) == Ev::Val(cons_cell(a, b)),
{
    lemma_spine_leaf(Term::Op(Prim::Cons));
    lemma_spine_ap(Term::Op(Prim::Cons), a);
    lemma_spine_ap(ap(Term::Op(Prim::Cons), a), b);
    lemma_whnf_eval(env, cons_cell(a, b), fuel);
}

/// `car (cons a b) = a`.
pub proof fn lemma_law_car(env: Seq<Term>, a: Term, b: Term, fuel: nat)
    requires
        fuel >= 6,
    ensures
        eval_spec(env, ap(Term::Op(Prim::Car), cons_cell(a, b)), fuel) == eval_spec(
            env,
            a,
            (fuel - 3) as nat,
        ),
{
    let f1 = (fuel - 1) as nat;
    let f2 = (fuel - 2) as nat;
    let p = cons_cell(a, b);
    assert(eval_spec(env, Term::Op(Prim::Car), f1) == Ev::Val(Term::Op(Prim::Car)));
    assert(apply_spec(env, Term::Op(Prim::Car), p, f1) == rule1_spec(env, Prim::Car, p, f1));
    assert(rule1_spec(env, Prim::Car, p, f1) == eval_spec(env, ap(p, Term::Op(Prim::T)), f1));
    lemma_cons_cell_whnf(env, a, b, f2);
    assert(apply_spec(env, p, Term::Op(Prim::T), f2) == rule3_spec(
        env,
        Prim::Cons,
        a,
        b,
        Term::Op(Prim::T),
        f2,
    ));
    assert(rule3_spec(env, Prim::Cons, a, b, Term::Op(Prim::T), f2) == eval_spec(
        env,
        ap(ap(Term::Op(Prim::T), a), b),
        f2,
    ));
    lemma_law_t(env, a, b, f2);
}

/// `cdr (cons a b) = b`.
pub proof fn lemma_law_cdr(env: Seq<Term>, a: Term, b: Term, fuel: nat)
    requires
        fuel >= 6,
    ensures
        eval_spec(env, ap(Term::Op(Prim::Cdr), cons_cell(a, b)), fuel) == eval_spec(
            env,
            b,
            (fuel - 3) as nat,
        ),
{
    let f1 = (fuel - 1) as nat;
    let f2 = (fuel - 2) as nat;
    let p = cons_cell(a, b);
    assert(eval_spec(env, Term::Op(Prim::Cdr), f1) == Ev::Val(Term::Op(Prim::Cdr)));
    assert(apply_spec(env, Term::Op(Prim::Cdr), p, f1) == rule1_spec(env, Prim::Cdr, p, f1));
    assert(rule1_spec(env, Prim::Cdr, p, f1) == eval_spec(env, ap(p, Term::Op(Prim::F)), f1));
    lemma_cons_cell_whnf(env, a, b, f2);
    assert(apply_spec(env, p, Term::Op(Prim::F), f2) == rule3_spec(
        env,
        Prim::Cons,
        a,
        b,
        Term::Op(Prim::F),
        f2,
    ));
    assert(rule3_spec(env, Prim::Cons, a, b, Term::Op(Prim::F), f2) == eval_spec(
        env,
        ap(ap(Term::Op(Prim::F), a), b),
        f2,
    ));
    lemma_law_f(env, a, b, f2);
}

/// `isnil nil = t`.
pub proof fn lemma_law_isnil_nil(env: Seq<Term>, fuel: nat)
    requires
        fuel >= 2,
    ensures
        eval_spec(env, ap(Term::Op(Prim::Isnil), Term::Op(Prim::Nil)), fuel) == Ev::Val(
            Term::Op(Prim::T),
        ),
{
    let f1 = (fuel - 1) as nat;
    assert(eval_spec(env, Term::Op(Prim::Isnil), f1) == Ev::Val(Term::Op(Prim::Isnil)));
    assert(apply_spec(env, Term::Op(Prim::Isnil), Term::Op(Prim::Nil), f1) == rule1_spec(
        env,
        Prim::Isnil,
        Term::Op(Prim::Nil),
        f1,
    ));
    assert(eval_spec(env, Term::Op(Prim::Nil), f1) == Ev::Val(Term::Op(Prim::Nil)));
}

/// `isnil (cons a b) = f`.
pub proof fn lemma_law_isnil_cons(env: Seq<Term>, a: Term, b: Term, fuel: nat)
    requires
        fuel >= 4,
    ensures
        eval_spec(env, ap(Term::Op(Prim::Isnil), cons_cell(a, b)), fuel) == Ev::Val(
            Term::Op(Prim::F),
        ),
{
    let f1 = (fuel - 1) as nat;
    let p = cons_cell(a, b);
    assert(eval_spec(env, Term::Op(Prim::Isnil), f1) == Ev::Val(Term::Op(Prim::Isnil)));
    assert(apply_spec(env, Term::Op(Prim::Isnil), p, f1) == rule1_spec(env, Prim::Isnil, p, f1));
    lemma_cons_cell_whnf(env, a, b, f1);
    assert(is_cons_cell(p));
    assert(p != Term::Op(Prim::Nil));
}

/// `div` truncates toward zero: the magnitude of the quotient is the
/// quotient of the magnitudes, negated exactly when the signs differ.
pub proof fn lemma_div_truncates(env: Seq<Term>, a: i64, b: i64, fuel: nat)
    requires
        b != 0,
        !(a == i64::MIN && b == -1),
        fuel >= 3,
    ensures
        div_trunc(a as int, b as int) == if (a < 0) == (b < 0) {
            (int_abs(a as int) / int_abs(b as int)) as int
        } else {
            -((int_abs(a as int) / int_abs(b as int)) as int)
        },
        eval_spec(env, ap(ap(Term::Op(Prim::Div), Term::Num(a)), Term::Num(b)), fuel) == Ev::Val(
            Term::Num(div_trunc(a as int, b as int) as i64),
        ),
{
    let f1 = (fuel - 1) as nat;
    let l = ap(Term::Op(Prim::Div), Term::Num(a));
    lemma_spine_leaf(Term::Op(Prim::Div));
    lemma_spine_ap(Term::Op(Prim::Div), Term::Num(a));
    lemma_whnf_eval(env, l, f1);
    assert(apply_spec(env, l, Term::Num(b), f1) == rule2_spec(
        env,
        Prim::Div,
        Term::Num(a),
        Term::Num(b),
        f1,
    ));
    assert(eval_spec(env, Term::Num(a), f1) == Ev::Val(Term::Num(a)));
    assert(eval_spec(env, Term::Num(b), f1) == Ev::Val(Term::Num(b)));
    let na = int_abs(a as int);
    let nb = int_abs(b as int);
    lemma_div_basics_4(na as int, nb as int);
    lemma_div_basics_5(na as int, nb as int);
    if a == i64::MIN && (a < 0) == (b < 0) {
        // the one positive quotient near the boundary: the divisor's
        // magnitude is at least two, so the quotient is at most half
        assert(nb >= 2);
        lemma_div_is_ordered_by_denominator(na as int, 2, nb as int);
        assert(na as int / nb as int <= na as int / 2);
    }
    assert(i64::MIN <= div_trunc(a as int, b as int) <= i64::MAX);
    assert(arith_spec(Prim::Div, a, b) == Ev::Val(Term::Num(div_trunc(a as int, b as int) as i64)));
}

} // verus!
