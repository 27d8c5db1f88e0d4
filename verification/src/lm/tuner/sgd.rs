//! Stochastic gradient descent with momentum, weight decay and dampening.
//!
//! With the gradient `g` of a parameter `w`, the rate `r`, the momentum `m`,
//! the weight decay `d` and the dampening `t`: `g` becomes `g + d * w` where
//! `d` is not zero. Without momentum `w` becomes `w - r * g`. With it the
//! velocity `v` becomes `m * v + (1 - t) * g`, with `g` itself in place of the
//! product where `t` is not positive, and `w` becomes `w - r * u`, where `u` is
//! `v` or, in Nesterov's form, `g + m * v`.
use vstd::prelude::*;

use crate::array::{bind, leaf, outcome, scalar, Array, Op, Tensor};
use crate::error::{backend, Result};
use crate::lm::lora::layers::{tensors, Weights};
use crate::names::{
    assigned, assignment_reads_back, keys_distinct, lemma_mapped_assigned, lemma_mapped_lookup,
    lookup, mapped, NameMap,
};
use crate::ops::arithmetic::{difference, multiply, product, subtract, sum};
use crate::scalar::F32;

verus! {

/// The rate of learning: the same in every step, or one for each.
pub enum LearningRate<S> {
    Constant(F32),
    Schedule(S),
}

/// The constants of the update.
#[derive(Clone, Copy, Debug, PartialEq, Eq, Structural)]
pub struct Rule {
    pub momentum: F32,
    pub weight_decay: F32,
    pub dampening: F32,
    pub nesterov: bool,
}

impl F32 {
    /// Whether this is a number not above zero.
    pub open spec fn spec_is_not_above_zero(self) -> bool {
        !self.is_nan() && self.rank() <= 0
    }

    /// Whether this is a number not above zero.
    #[verifier::when_used_as_spec(spec_is_not_above_zero)]
    pub fn is_not_above_zero(self) -> (r: bool)
        ensures
            r == self.spec_is_not_above_zero(),
    {
        !self.is_nan() && !self.is_positive()
    }
}

/// Zeros of the shape and the element type of `t`.
pub open spec fn zeros_of(t: Tensor) -> Option<Tensor> {
    leaf(Op::Full, t.shape, t.dtype, seq![0u64])
}

/// `value * t`.
pub open spec fn times(value: F32, t: Tensor) -> Option<Tensor> {
    product(scalar(value), t)
}

/// The gradient with the weight decay.
pub open spec fn decayed(rule: Rule, g: Tensor, w: Tensor) -> Option<Tensor> {
    if rule.weight_decay.is_zero() {
        Some(g)
    } else {
        bind(times(rule.weight_decay, w), |d: Tensor| sum(g, d))
    }
}

/// The gradient as the velocity takes it up.
pub open spec fn dampened(rule: Rule, g: Tensor) -> Option<Tensor> {
    if rule.dampening.is_positive() {
        bind(
            difference(scalar(F32::one()), scalar(rule.dampening)),
            |k: Tensor| product(k, g),
        )
    } else {
        Some(g)
    }
}

/// The new velocity.
pub open spec fn velocity(rule: Rule, g: Tensor, v: Tensor) -> Option<Tensor> {
    bind(
        times(rule.momentum, v),
        |mv: Tensor| bind(dampened(rule, g), |dg: Tensor| sum(mv, dg)),
    )
}

/// What the parameter moves against.
pub open spec fn direction(rule: Rule, g: Tensor, v: Tensor) -> Option<Tensor> {
    if rule.nesterov {
        bind(times(rule.momentum, v), |mv: Tensor| sum(g, mv))
    } else {
        Some(v)
    }
}

/// The parameter moved.
pub open spec fn moved(w: Tensor, rate: F32, u: Tensor) -> Option<Tensor> {
    bind(times(rate, u), |s: Tensor| difference(w, s))
}

/// The new parameter and, with momentum, the new velocity.
#[verifier::opaque]
pub open spec fn updated(rule: Rule, rate: F32, g: Tensor, w: Tensor, v: Option<Tensor>) -> Option<
    (Tensor, Option<Tensor>),
> {
    match decayed(rule, g, w) {
        None => None,
        Some(eg) => if rule.momentum.is_not_above_zero() {
            match moved(w, rate, eg) {
                Some(nw) => Some((nw, None)),
                None => None,
            }
        } else {
            let previous = match v {
                Some(p) => Some(p),
                None => zeros_of(w),
            };
            match bind(previous, |p: Tensor| velocity(rule, eg, p)) {
                None => None,
                Some(nv) => match bind(direction(rule, eg, nv), |u: Tensor| moved(w, rate, u)) {
                    Some(nw) => Some((nw, Some(nv))),
                    None => None,
                },
            }
        },
    }
}

fn build_zeros(a: &Array) -> (r: Result<Array>)
    ensures
        r is Ok,
        outcome(r) == zeros_of(a@),
{
    let mut bits: Vec<u64> = Vec::new();
    bits.push(0);
    assert(bits@ =~= seq![0u64]);
    Array::build_leaf(Op::Full, a.shape(), a.dtype(), bits)
}

fn build_times(value: F32, a: &Array) -> (r: Result<Array>)
    ensures
        outcome(r) == times(value, a@),
        r is Err ==> r->Err_0 is Backend,
{
    let s = Array::scalar(value);
    multiply(&s, a)
}

fn build_moved(w: &Array, rate: F32, u: &Array) -> (r: Result<Array>)
    ensures
        outcome(r) == moved(w@, rate, u@),
        r is Err ==> r->Err_0 is Backend,
{
    let s = build_times(rate, u)?;
    subtract(w, &s)
}

fn build_decayed(rule: Rule, g: &Array, w: &Array) -> (r: Result<Array>)
    ensures
        outcome(r) == decayed(rule, g@, w@),
        r is Err ==> r->Err_0 is Backend,
{
    if rule.weight_decay.is_zero() {
        g.try_clone()
    } else {
        let d = build_times(rule.weight_decay, w)?;
        crate::ops::arithmetic::add(g, &d)
    }
}

fn build_velocity(rule: Rule, g: &Array, v: &Array) -> (r: Result<Array>)
    ensures
        outcome(r) == velocity(rule, g@, v@),
        r is Err ==> r->Err_0 is Backend,
{
    let mv = build_times(rule.momentum, v)?;
    let dg = if rule.dampening.is_positive() {
        let one = Array::scalar(F32::one());
        let damp = Array::scalar(rule.dampening);
        let k = subtract(&one, &damp)?;
        multiply(&k, g)?
    } else {
        g.dup()
    };
    crate::ops::arithmetic::add(&mv, &dg)
}

fn build_direction(rule: Rule, g: &Array, v: &Array) -> (r: Result<Array>)
    ensures
        outcome(r) == direction(rule, g@, v@),
        r is Err ==> r->Err_0 is Backend,
{
    if rule.nesterov {
        let mv = build_times(rule.momentum, v)?;
        crate::ops::arithmetic::add(g, &mv)
    } else {
        v.try_clone()
    }
}

/// The new parameter and, with momentum, the new velocity.
pub fn update(rule: Rule, rate: F32, g: &Array, w: &Array, v: Option<&Array>) -> (r: Result<
    (Array, Option<Array>),
>)
    ensures
        match r {
            Ok((nw, nv)) => updated(
                rule,
                rate,
                g@,
                w@,
                match v {
                    Some(p) => Some(p@),
                    None => None,
                },
            ) == Some((nw@, crate::array::view_opt(nv))),
            Err(e) => e is Backend && updated(
                rule,
                rate,
                g@,
                w@,
                match v {
                    Some(p) => Some(p@),
                    None => None,
                },
            ) is None,
        },
{
    proof {
        reveal(updated);
    }
    let eg = build_decayed(rule, g, w)?;
    if rule.momentum.is_not_above_zero() {
        let nw = build_moved(w, rate, &eg)?;
        return Ok((nw, None));
    }
    let previous = match v {
        Some(p) => p.dup(),
        None => build_zeros(w)?,
    };
    let nv = build_velocity(rule, &eg, &previous)?;
    let u = build_direction(rule, &eg, &nv)?;
    let nw = build_moved(w, rate, &u)?;
    Ok((nw, Some(nv)))
}

/// Parameters and velocities after the gradients of the first `n` names have
/// been applied. A gradient without a parameter of its name has no effect.
pub open spec fn stepped(
    rule: Rule,
    rate: F32,
    grads: Seq<(Seq<char>, Tensor)>,
    n: int,
    params: Seq<(Seq<char>, Tensor)>,
    state: Seq<(Seq<char>, Tensor)>,
) -> Option<(Seq<(Seq<char>, Tensor)>, Seq<(Seq<char>, Tensor)>)>
    decreases n,
{
    if n <= 0 {
        Some((params, state))
    } else {
        match stepped(rule, rate, grads, n - 1, params, state) {
            None => None,
            Some((p, s)) => {
                let (k, g) = grads[n - 1];
                match lookup(p, k) {
                    None => Some((p, s)),
                    Some(w) => match updated(rule, rate, g, w, lookup(s, k)) {
                        None => None,
                        Some((nw, nv)) => Some(
                            (
                                assigned(p, k, nw),
                                match nv {
                                    Some(v) => assigned(s, k, v),
                                    None => s,
                                },
                            ),
                        ),
                    },
                }
            },
        }
    }
}

/// Whether a step came as far as `after` and could not apply the gradient that
/// is next.
pub open spec fn halted(
    rule: Rule,
    rate: F32,
    grads: Seq<(Seq<char>, Tensor)>,
    params: Seq<(Seq<char>, Tensor)>,
    state: Seq<(Seq<char>, Tensor)>,
    after: (Seq<(Seq<char>, Tensor)>, Seq<(Seq<char>, Tensor)>),
) -> bool {
    exists|m: int|
        0 <= m < grads.len() && #[trigger] stepped(rule, rate, grads, m, params, state) == Some(
            after,
        ) && stepped(rule, rate, grads, m + 1, params, state) is None
}

/// The velocities before the first step.
pub open spec fn at_rest(grads: Seq<(Seq<char>, Tensor)>) -> Seq<(Seq<char>, Tensor)> {
    mapped(grads, |t: Tensor| zeros_of(t)->0)
}

proof fn lemma_stepped_fails(
    rule: Rule,
    rate: F32,
    grads: Seq<(Seq<char>, Tensor)>,
    m: int,
    n: int,
    params: Seq<(Seq<char>, Tensor)>,
    state: Seq<(Seq<char>, Tensor)>,
)
    requires
        0 <= m <= n,
        stepped(rule, rate, grads, m, params, state) is None,
    ensures
        stepped(rule, rate, grads, n, params, state) is None,
    decreases n,
{
    if m < n {
        lemma_stepped_fails(rule, rate, grads, m, n - 1, params, state);
    }
}

/// The names of the parameters stay, and each parameter moves by its own
/// gradient and velocity alone, whatever the order: after a step it is what
/// the rule makes of its gradient, and without one it is as before. The same
/// holds of its velocity.
pub proof fn parameters_move_alone(
    rule: Rule,
    rate: F32,
    grads: Seq<(Seq<char>, Tensor)>,
    n: int,
    params: Seq<(Seq<char>, Tensor)>,
    state: Seq<(Seq<char>, Tensor)>,
    k: Seq<char>,
)
    requires
        keys_distinct(grads),
        keys_distinct(params),
        keys_distinct(state),
        0 <= n <= grads.len(),
        stepped(rule, rate, grads, n, params, state) is Some,
    ensures
        ({
            let (p, s) = stepped(rule, rate, grads, n, params, state)->0;
            let g = lookup(grads.take(n), k);
            &&& g is Some && lookup(params, k) is Some ==> updated(
                rule,
                rate,
                g->0,
                lookup(params, k)->0,
                lookup(state, k),
            ) is Some
            &&& keys_distinct(p)
            &&& keys_distinct(s)
            &&& lookup(p, k) == if g is Some && lookup(params, k) is Some {
                let (nw, _) = updated(
                    rule,
                    rate,
                    g->0,
                    lookup(params, k)->0,
                    lookup(state, k),
                )->0;
                Some(nw)
            } else {
                lookup(params, k)
            }
            &&& lookup(s, k) == if g is Some && lookup(params, k) is Some {
                let (_, nv) = updated(
                    rule,
                    rate,
                    g->0,
                    lookup(params, k)->0,
                    lookup(state, k),
                )->0;
                if nv is Some {
                    nv
                } else {
                    lookup(state, k)
                }
            } else {
                lookup(state, k)
            }
        }),
    decreases n,
{
    if n > 0 {
        parameters_move_alone(rule, rate, grads, n - 1, params, state, k);
        let (p, s) = stepped(rule, rate, grads, n - 1, params, state)->0;
        let (j, g) = grads[n - 1];
        assert(grads.take(n).drop_last() =~= grads.take(n - 1));
        assert(grads.take(n).last() == grads[n - 1]);
        assert(lookup(grads.take(n - 1), j) is None) by {
            let t = grads.take(n - 1);
            assert forall|i: int| 0 <= i < t.len() implies (#[trigger] t[i]).0 != j by {
                assert(grads[i].0 != grads[n - 1].0);
            }
            crate::names::lemma_no_match(t, j);
        }
        if lookup(p, j) is Some {
            let w = lookup(p, j)->0;
            let (nw, nv) = updated(rule, rate, g, w, lookup(s, j))->0;
            assignment_reads_back(p, j, nw);
            if nv is Some {
                assignment_reads_back(s, j, nv->0);
            }
        }
    }
}

proof fn lemma_tensors_distinct(s: Seq<(Seq<char>, Array)>)
    requires
        keys_distinct(s),
    ensures
        keys_distinct(tensors(s)),
{
    let t = tensors(s);
    assert forall|a: int, b: int| 0 <= a < b < t.len() implies (#[trigger] t[a]).0 != (
    #[trigger] t[b]).0 by {
        assert(s[a].0 != s[b].0);
    }
}

proof fn lemma_names_distinct(s: Seq<(Seq<char>, Array)>)
    requires
        keys_distinct(tensors(s)),
    ensures
        keys_distinct(s),
{
    let t = tensors(s);
    assert forall|a: int, b: int| 0 <= a < b < s.len() implies (#[trigger] s[a]).0 != (
    #[trigger] s[b]).0 by {
        assert(t[a].0 != t[b].0);
    }
}

/// Stochastic gradient descent.
pub struct SGD<S: Fn(usize) -> F32> {
    learning_rate: LearningRate<S>,
    rule: Rule,
    step_count: usize,
    current_lr: F32,
    state: Weights,
}

/// Whether a rate for each step can be asked of `lr`.
pub open spec fn rate_total<S: Fn(usize) -> F32>(lr: LearningRate<S>) -> bool {
    lr matches LearningRate::Schedule(f) ==> forall|n: usize| #[trigger] call_requires(f, (n,))
}

/// Whether `rate` is a rate that `lr` gives for the step `n`.
pub open spec fn is_rate<S: Fn(usize) -> F32>(lr: LearningRate<S>, n: usize, rate: F32) -> bool {
    match lr {
        LearningRate::Constant(r) => rate == r,
        LearningRate::Schedule(f) => call_ensures(f, (n,), rate),
    }
}

fn current<S: Fn(usize) -> F32>(lr: &LearningRate<S>, n: usize) -> (rate: F32)
    requires
        rate_total(*lr),
    ensures
        is_rate(*lr, n, rate),
{
    match lr {
        LearningRate::Constant(r) => *r,
        LearningRate::Schedule(f) => f(n),
    }
}

impl<S: Fn(usize) -> F32> SGD<S> {
    /// The rate of learning.
    pub closed spec fn rates(&self) -> LearningRate<S> {
        self.learning_rate
    }

    /// The constants of the update.
    pub closed spec fn rule(&self) -> Rule {
        self.rule
    }

    /// How many steps have been made.
    pub closed spec fn steps(&self) -> int {
        self.step_count as int
    }

    /// The rate of the last step.
    pub closed spec fn rate(&self) -> F32 {
        self.current_lr
    }

    /// The velocities by name.
    pub closed spec fn velocities(&self) -> Seq<(Seq<char>, Tensor)> {
        tensors(self.state@)
    }

    /// Whether rates can be asked for, and no two velocities have the same
    /// name.
    pub open spec fn wf(&self) -> bool {
        rate_total(self.rates()) && keys_distinct(self.velocities())
    }

    /// The descent with the given constants. Nesterov's form needs momentum
    /// above zero and no dampening.
    pub fn new(
        learning_rate: LearningRate<S>,
        momentum: F32,
        weight_decay: F32,
        dampening: F32,
        nesterov: bool,
    ) -> (r: Result<SGD<S>>)
        requires
            rate_total(learning_rate),
        ensures
            match r {
                Ok(s) => {
                    &&& s.wf()
                    &&& !(nesterov && (momentum.is_not_above_zero() || !dampening.is_zero()))
                    &&& s.rates() == learning_rate
                    &&& s.rule() == (Rule { momentum, weight_decay, dampening, nesterov })
                    &&& s.steps() == 0
                    &&& s.velocities() == Seq::<(Seq<char>, Tensor)>::empty()
                    &&& is_rate(learning_rate, 0, s.rate())
                },
                Err(e) => {
                    &&& e is Backend
                    &&& nesterov && (momentum.is_not_above_zero() || !dampening.is_zero())
                    &&& e.text()
                        == "SGD: Nesterov momentum requires momentum > 0 and dampening == 0"@
                },
            },
    {
        if nesterov && (momentum.is_not_above_zero() || !dampening.is_zero()) {
            return Err(
                backend("SGD: Nesterov momentum requires momentum > 0 and dampening == 0"),
            );
        }
        let current_lr = current(&learning_rate, 0);
        let s = SGD {
            learning_rate,
            rule: Rule { momentum, weight_decay, dampening, nesterov },
            step_count: 0,
            current_lr,
            state: NameMap::new(),
        };
        assert(s.velocities() =~= Seq::<(Seq<char>, Tensor)>::empty());
        Ok(s)
    }

    /// The descent by the rate and the gradient alone.
    pub fn vanilla(learning_rate: LearningRate<S>) -> (r: Result<SGD<S>>)
        requires
            rate_total(learning_rate),
        ensures
            r is Ok,
            r->Ok_0.wf(),
            r->Ok_0.rates() == learning_rate,
            r->Ok_0.rule() == (Rule {
                momentum: F32::zero(),
                weight_decay: F32::zero(),
                dampening: F32::zero(),
                nesterov: false,
            }),
            r->Ok_0.steps() == 0,
            r->Ok_0.velocities() == Seq::<(Seq<char>, Tensor)>::empty(),
            is_rate(learning_rate, 0, r->Ok_0.rate()),
    {
        SGD::new(learning_rate, F32::zero(), F32::zero(), F32::zero(), false)
    }

    /// Sets every velocity to zero, one for each of `params`.
    pub fn init(&mut self, params: &Weights) -> (r: Result<()>)
        ensures
            r is Ok,
            keys_distinct(final(self).velocities()),
            final(self).velocities() == at_rest(tensors(params@)),
            final(self).rates() == old(self).rates(),
            final(self).rule() == old(self).rule(),
            final(self).steps() == old(self).steps(),
            final(self).rate() == old(self).rate(),
    {
        let n: usize = params.len();
        let ghost all = at_rest(tensors(params@));
        let mut state: Weights = NameMap::new();
        let mut i: usize = 0;
        assert(tensors(state@) =~= all.take(0));
        while i < n
            invariant
                n == params@.len(),
                0 <= i <= n,
                keys_distinct(params@),
                all == at_rest(tensors(params@)),
                keys_distinct(state@),
                tensors(state@) == all.take(i as int),
            decreases n - i,
        {
            let name = params.name_at(i);
            let zero = build_zeros(params.value_at(i))?;
            proof {
                lemma_mapped_assigned(state@, |a: Array| a@, name@, zero);
                assert(lookup(all.take(i as int), name@) is None) by {
                    let t = all.take(i as int);
                    assert forall|j: int| 0 <= j < t.len() implies (#[trigger] t[j]).0 != name@ by {
                        assert(params@[j].0 != params@[i as int].0);
                    }
                    crate::names::lemma_no_match(t, name@);
                }
                assert(assigned(all.take(i as int), name@, zero@) =~= all.take(i as int).push(
                    (name@, zero@),
                ));
                assert(all.take(i + 1) =~= all.take(i as int).push(all[i as int]));
            }
            state.insert(name, zero);
            i = i + 1;
        }
        assert(all.take(n as int) =~= all);
        proof {
            lemma_tensors_distinct(state@);
        }
        self.state = state;
        Ok(())
    }

    /// One step: moves each parameter for which there is a gradient. Without
    /// velocities those of the gradients begin at zero. Where one parameter
    /// cannot be moved, those before it have been.
    #[verifier::rlimit(40)]
    pub fn apply_gradients(&mut self, gradients: &Weights, params: &mut Weights) -> (r: Result<()>)
        requires
            old(self).wf(),
            old(self).steps() < usize::MAX,
        ensures
            final(self).wf(),
            final(self).rates() == old(self).rates(),
            final(self).rule() == old(self).rule(),
            final(self).steps() == old(self).steps() + 1,
            is_rate(old(self).rates(), final(self).steps() as usize, final(self).rate()),
            ({
                let grads = tensors(gradients@);
                let state = if old(self).velocities().len() == 0 {
                    at_rest(grads)
                } else {
                    old(self).velocities()
                };
                let after = stepped(
                    old(self).rule(),
                    final(self).rate(),
                    grads,
                    grads.len() as int,
                    tensors(old(params)@),
                    state,
                );
                match r {
                    Ok(_) => after == Some(
                        (tensors(final(params)@), final(self).velocities()),
                    ),
                    Err(e) => e is Backend && after is None && halted(
                        old(self).rule(),
                        final(self).rate(),
                        grads,
                        tensors(old(params)@),
                        state,
                        (tensors(final(params)@), final(self).velocities()),
                    ),
                }
            }),
    {
        if self.state.is_empty() {
            let _ = self.init(gradients);
        }
        self.step_count = self.step_count + 1;
        self.current_lr = current(&self.learning_rate, self.step_count);
        let rate = self.current_lr;
        let rule = self.rule;
        let n: usize = gradients.len();
        let ghost grads = tensors(gradients@);
        let ghost start = tensors(params@);
        let ghost state = self.velocities();
        proof {
            lemma_names_distinct(self.state@);
        }
        let mut i: usize = 0;
        while i < n
            invariant
                keys_distinct(self.state@),
                n == gradients@.len(),
                0 <= i <= n,
                grads == tensors(gradients@),
                rule == self.rule,
                rate == self.current_lr,
                self.rates() == old(self).rates(),
                self.rule() == old(self).rule(),
                self.steps() == old(self).steps() + 1,
                old(self).wf(),
                is_rate(old(self).rates(), self.steps() as usize, rate),
                stepped(rule, rate, grads, i as int, start, state) == Some(
                    (tensors(params@), tensors(self.state@)),
                ),
                start == tensors(old(params)@),
                state == if old(self).velocities().len() == 0 {
                    at_rest(grads)
                } else {
                    old(self).velocities()
                },
            decreases n - i,
        {
            let name = gradients.name_at(i);
            let g = gradients.value_at(i);
            assert(grads[i as int] == (name@, g@));
            proof {
                lemma_mapped_lookup(params@, |a: Array| a@, name@);
                lemma_mapped_lookup(self.state@, |a: Array| a@, name@);
            }
            match params.get(name) {
                None => {},
                Some(w) => {
                    match update(rule, rate, g, w, self.state.get(name)) {
                        Err(e) => {
                            proof {
                                assert(stepped(rule, rate, grads, i + 1, start, state) is None);
                                assert(halted(
                                    rule,
                                    rate,
                                    grads,
                                    start,
                                    state,
                                    (tensors(params@), tensors(self.state@)),
                                ));
                                lemma_stepped_fails(
                                    rule,
                                    rate,
                                    grads,
                                    i + 1,
                                    n as int,
                                    start,
                                    state,
                                );
                            }
                            return Err(e);
                        },
                        Ok((nw, nv)) => {
                            proof {
                                lemma_mapped_assigned(params@, |a: Array| a@, name@, nw);
                            }
                            match nv {
                                Some(v) => {
                                    proof {
                                        lemma_mapped_assigned(
                                            self.state@,
                                            |a: Array| a@,
                                            name@,
                                            v,
                                        );
                                    }
                                    self.state.insert(name, v);
                                },
                                None => {},
                            }
                            params.insert(name, nw);
                        },
                    }
                },
            }
            i = i + 1;
        }
        Ok(())
    }

    /// How many steps have been made.
    pub fn step(&self) -> (n: usize)
        ensures
            n == self.steps(),
    {
        self.step_count
    }

    /// The rate of the last step.
    pub fn learning_rate(&self) -> (r: F32)
        ensures
            r == self.rate(),
    {
        self.current_lr
    }

    /// The velocity of the parameter `name`.
    pub fn velocity(&self, name: &str) -> (r: Option<&Array>)
        ensures
            match r {
                Some(v) => lookup(self.velocities(), name@) == Some(v@),
                None => lookup(self.velocities(), name@) is None,
            },
    {
        proof {
            lemma_mapped_lookup(self.state@, |a: Array| a@, name@);
        }
        self.state.get(name)
    }
}

} // verus!
