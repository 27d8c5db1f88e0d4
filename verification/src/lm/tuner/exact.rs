//! What a step of stochastic gradient descent does, in exact arithmetic.
use vstd::prelude::*;

use crate::array::{scalar, Tensor};
use crate::exact::{
    computed, held, im, lemma_elementwise, lemma_real, lemma_same_shape, lemma_scalar,
    lemma_scaled, lemma_source_same, lemma_units, number, re, Meaning,
};
use crate::lm::tuner::sgd::{
    at_rest, dampened, decayed, direction, moved, updated, velocity, zeros_of, Rule,
};
use crate::ops::arithmetic::{difference, product};
use crate::scalar::F32;
use crate::shape::{broadcast_scalar, elements, fits};

verus! {

proof fn lemma_decayed(rule: Rule, g: Tensor, w: Tensor, m: Meaning, k: int)
    requires
        fits(w.shape),
        g.shape == w.shape,
        0 <= k < elements(w.shape),
    ensures
        decayed(rule, g, w) is Some,
        decayed(rule, g, w)->0.shape == w.shape,
        re(decayed(rule, g, w)->0, m, k) == re(g, m, k) + number(rule.weight_decay) * re(w, m, k),
{
    lemma_units();
    if rule.weight_decay.is_zero() {
        assert(0real * re(w, m, k) == 0real) by (nonlinear_arith);
    } else {
        lemma_scaled(rule.weight_decay, w, m, k);
        lemma_same_shape(g, product(scalar(rule.weight_decay), w)->0, m, k);
    }
}

proof fn lemma_dampened(rule: Rule, g: Tensor, m: Meaning, k: int)
    requires
        fits(g.shape),
        0 <= k < elements(g.shape),
    ensures
        dampened(rule, g) is Some,
        dampened(rule, g)->0.shape == g.shape,
        re(dampened(rule, g)->0, m, k) == if rule.dampening.is_positive() {
            (1real - number(rule.dampening)) * re(g, m, k)
        } else {
            re(g, m, k)
        },
{
    if rule.dampening.is_positive() {
        lemma_units();
        let (one, t) = (scalar(F32::one()), scalar(rule.dampening));
        assert(one.shape =~= Seq::<usize>::empty());
        assert(t.shape =~= Seq::<usize>::empty());
        lemma_same_shape(one, t, m, 0);
        lemma_scalar(F32::one(), m, 0);
        lemma_scalar(rule.dampening, m, 0);
        let c = difference(one, t)->0;
        lemma_real(c, m, 0);
        broadcast_scalar(g.shape);
        lemma_source_same(g.shape, k);
        lemma_elementwise(product(c, g)->0, m, k);
        assert(0real * im(g, m, k) == 0real) by (nonlinear_arith);
    }
}

proof fn lemma_moved(w: Tensor, rate: F32, u: Tensor, m: Meaning, k: int)
    requires
        fits(w.shape),
        u.shape == w.shape,
        0 <= k < elements(w.shape),
    ensures
        moved(w, rate, u) is Some,
        moved(w, rate, u)->0.shape == w.shape,
        re(moved(w, rate, u)->0, m, k) == re(w, m, k) - number(rate) * re(u, m, k),
{
    lemma_scaled(rate, u, m, k);
    lemma_same_shape(w, product(scalar(rate), u)->0, m, k);
}

/// One step moves every element of a parameter by the rule, and never fails on
/// arrays of one shape. With the rate `r`, the momentum `m`, the weight decay
/// `d` and the dampening `t`, an element `w` with the gradient `g` and the
/// velocity `v`, and with `e = g + d * w`: without momentum the new element is
/// `w - r * e` and there is no velocity. With it the new velocity is
/// `m * v + (1 - t) * e`, with `e` itself in place of the product where `t` is
/// not positive, and the new element is `w - r * u`, where `u` is the new
/// velocity or, in Nesterov's form, `e` and `m` times the new velocity.
pub proof fn step_moves_against_the_gradient(
    rule: Rule,
    rate: F32,
    g: Tensor,
    w: Tensor,
    v: Option<Tensor>,
    m: Meaning,
    k: int,
)
    requires
        fits(w.shape),
        g.shape == w.shape,
        v matches Some(p) ==> p.shape == w.shape,
        0 <= k < elements(w.shape),
    ensures
        ({
            let (r, mu) = (number(rate), number(rule.momentum));
            let (d, t) = (number(rule.weight_decay), number(rule.dampening));
            let (g0, w0) = (re(g, m, k), re(w, m, k));
            let v0 = match v {
                Some(p) => re(p, m, k),
                None => 0real,
            };
            let e = g0 + d * w0;
            &&& updated(rule, rate, g, w, v) matches Some((nw, nv))
            &&& nw.shape == w.shape
            &&& if rule.momentum.is_not_above_zero() {
                nv is None && re(nw, m, k) == w0 - r * e
            } else {
                let v1 = mu * v0 + if rule.dampening.is_positive() {
                    (1real - t) * e
                } else {
                    e
                };
                &&& nv is Some
                &&& nv->0.shape == w.shape
                &&& re(nv->0, m, k) == v1
                &&& re(nw, m, k) == if rule.nesterov {
                    w0 - r * (e + mu * v1)
                } else {
                    w0 - r * v1
                }
            }
        }),
{
    reveal(updated);
    lemma_decayed(rule, g, w, m, k);
    let eg = decayed(rule, g, w)->0;
    if rule.momentum.is_not_above_zero() {
        lemma_moved(w, rate, eg, m, k);
    } else {
        let p = match v {
            Some(p) => p,
            None => zeros_of(w)->0,
        };
        if v is None {
            lemma_units();
            reveal(held);
            reveal(computed);
            assert(re(p, m, k) == 0real);
        }
        lemma_scaled(rule.momentum, p, m, k);
        lemma_dampened(rule, eg, m, k);
        let mv = product(scalar(rule.momentum), p)->0;
        lemma_same_shape(mv, dampened(rule, eg)->0, m, k);
        let nv = velocity(rule, eg, p)->0;
        if rule.nesterov {
            lemma_scaled(rule.momentum, nv, m, k);
            lemma_same_shape(eg, product(scalar(rule.momentum), nv)->0, m, k);
        }
        lemma_moved(w, rate, direction(rule, eg, nv)->0, m, k);
    }
}

/// Before the first step there is one velocity for each gradient, under its
/// name and of its shape, and all of it is zero.
pub proof fn velocities_begin_at_zero(
    grads: Seq<(Seq<char>, Tensor)>,
    i: int,
    m: Meaning,
    k: int,
)
    requires
        0 <= i < grads.len(),
        fits(grads[i].1.shape),
    ensures
        at_rest(grads).len() == grads.len(),
        at_rest(grads)[i].0 == grads[i].0,
        at_rest(grads)[i].1.shape == grads[i].1.shape,
        at_rest(grads)[i].1.dtype == grads[i].1.dtype,
        re(at_rest(grads)[i].1, m, k) == 0real,
{
    lemma_units();
    reveal(held);
    reveal(computed);
    assert(zeros_of(grads[i].1) is Some);
    assert(re(zeros_of(grads[i].1)->0, m, k) == 0real);
}

} // verus!
