//! The risk function: the probability that an agent's win is safe.
//!
//! `WinnerOnlyRisk` maps agent `i`'s signals to `s' / (1 + s')` with
//! `s' = s_i * p_i^(-theta_i)`: higher safety effort raises the probability,
//! higher performance (for positive `theta`) lowers it.

use vstd::prelude::*;
use crate::fx::{Fx, SCALE, add_model, div_model, mul_model, neg_model, lemma_mul_model_nonneg, lemma_div_model_nonneg};
use crate::fxpow::{pow_model, lemma_pow_model_nonneg};
use crate::strategies::fx_row;
use crate::errors::ValidationError;
use crate::utils::clone_row;
use vstd::arithmetic::div_mod::{lemma_div_is_ordered, lemma_div_by_multiple};

verus! {

/// The probability that agent `i`'s win is safe:
/// `s' / (1 + s')` with `s' = s_i * p_i^(-theta_i)`.
pub open spec fn sigma_model(theta: Seq<int>, s: Seq<int>, p: Seq<int>, i: int) -> int {
    let sp = mul_model(s[i], pow_model(p[i], neg_model(theta[i])));
    div_model(sp, add_model(SCALE as int, sp))
}

/// A saturating ratio `x / (1 + x)` of a non-negative value is a probability.
pub proof fn lemma_sat_ratio_bounds(x: int)
    requires
        0 <= x <= i64::MAX as int,
    ensures
        0 <= div_model(x, add_model(SCALE as int, x)) <= SCALE as int,
{
    lemma_div_model_nonneg(x, add_model(SCALE as int, x));
    let d = add_model(SCALE as int, x);
    if x + SCALE as int <= i64::MAX as int {
        assert(d == x + SCALE as int);
        assert(x * (SCALE as int) <= d * (SCALE as int)) by (nonlinear_arith)
            requires
                0 <= x < d,
        ;
        lemma_div_is_ordered(x * (SCALE as int), d * (SCALE as int), d);
        lemma_div_by_multiple(SCALE as int, d);
        assert(d * (SCALE as int) == (SCALE as int) * d) by (nonlinear_arith);
    } else {
        assert(d == i64::MAX as int);
        assert(x * (SCALE as int) <= d * (SCALE as int)) by (nonlinear_arith)
            requires
                0 <= x <= d,
        ;
        lemma_div_is_ordered(x * (SCALE as int), d * (SCALE as int), d);
        lemma_div_by_multiple(SCALE as int, d);
        assert(d * (SCALE as int) == (SCALE as int) * d) by (nonlinear_arith);
    }
}

/// Risk borne by the winner alone: per-agent decay exponents `theta`.
#[derive(Debug)]
pub struct WinnerOnlyRisk {
    pub theta: Vec<Fx>,
}

impl View for WinnerOnlyRisk {
    type V = Seq<int>;

    open spec fn view(&self) -> Seq<int> {
        fx_row(self.theta@)
    }
}

impl WinnerOnlyRisk {
    /// The shape invariant: at least one agent.
    pub open spec fn wf(self) -> bool {
        self@.len() >= 1
    }

    /// The number of agents.
    pub open spec fn n_spec(self) -> int {
        self@.len() as int
    }

    /// Build a risk function with the same exponent for every one of `n`
    /// agents.  Fails with `EmptyList` when `n` is zero.
    pub fn new(n: usize, theta: Fx) -> (r: Result<WinnerOnlyRisk, ValidationError>)
        ensures
            r matches Ok(w) ==> w.wf() && w@ == Seq::new(n as nat, |i: int| theta.v as int),
            r is Ok <==> n >= 1,
    {
        if n == 0 {
            return Err(ValidationError::EmptyList);
        }
        let mut theta_v: Vec<Fx> = Vec::new();
        for i in 0..n
            invariant
                theta_v@.len() == i,
                forall|p: int| 0 <= p < i ==> (#[trigger] theta_v@[p]).v == theta.v,
        {
            theta_v.push(theta);
        }
        let w = WinnerOnlyRisk { theta: theta_v };
        proof {
            assert(w@ =~= Seq::new(n as nat, |i: int| theta.v as int));
        }
        Ok(w)
    }

    /// The number of agents.
    pub fn n(&self) -> (r: usize)
        ensures
            r as int == self.n_spec(),
    {
        self.theta.len()
    }

    /// The probability (in `[0, 1]`) that agent `i`'s win is safe, given the
    /// safety and performance signals.
    pub fn sigma_i(&self, i: usize, s: &Vec<Fx>, p: &Vec<Fx>) -> (r: Fx)
        requires
            self.wf(),
            (i as int) < self.n_spec(),
            (i as int) < s@.len(),
            (i as int) < p@.len(),
            s@[i as int].v >= 0,
        ensures
            r.v as int == sigma_model(self@, fx_row(s@), fx_row(p@), i as int),
            0 <= r.v <= SCALE,
    {
        proof {
            assert(self@[i as int] == self.theta@[i as int].v as int);
            assert(fx_row(s@)[i as int] == s@[i as int].v as int);
            assert(fx_row(p@)[i as int] == p@[i as int].v as int);
            lemma_pow_model_nonneg(p@[i as int].v as int, neg_model(self.theta@[i as int].v as int));
            lemma_mul_model_nonneg(
                s@[i as int].v as int,
                pow_model(p@[i as int].v as int, neg_model(self.theta@[i as int].v as int)),
            );
            lemma_sat_ratio_bounds(
                mul_model(
                    s@[i as int].v as int,
                    pow_model(p@[i as int].v as int, neg_model(self.theta@[i as int].v as int)),
                ),
            );
        }
        let sp = s[i].mul(p[i].pow(self.theta[i].neg()));
        sp.div(Fx::one().add(sp))
    }

    /// The per-agent safe-win probabilities.
    pub fn sigma(&self, s: &Vec<Fx>, p: &Vec<Fx>) -> (r: Vec<Fx>)
        requires
            self.wf(),
            s@.len() == self.n_spec(),
            p@.len() == self.n_spec(),
            forall|i: int| 0 <= i < s@.len() ==> (#[trigger] s@[i]).v >= 0,
        ensures
            r@.len() == self.n_spec(),
            forall|i: int|
                0 <= i < r@.len() ==> (#[trigger] r@[i]).v as int == sigma_model(
                    self@,
                    fx_row(s@),
                    fx_row(p@),
                    i,
                ) && 0 <= r@[i].v <= SCALE,
    {
        let n = self.theta.len();
        let mut r: Vec<Fx> = Vec::new();
        for i in 0..n
            invariant
                n as int == self.n_spec(),
                self.wf(),
                s@.len() == n,
                p@.len() == n,
                forall|q: int| 0 <= q < s@.len() ==> (#[trigger] s@[q]).v >= 0,
                r@.len() == i,
                forall|q: int|
                    0 <= q < i ==> (#[trigger] r@[q]).v as int == sigma_model(
                        self@,
                        fx_row(s@),
                        fx_row(p@),
                        q,
                    ) && 0 <= r@[q].v <= SCALE,
        {
            r.push(self.sigma_i(i, s, p));
        }
        r
    }
}

impl Clone for WinnerOnlyRisk {
    /// Cloning keeps the exponents.
    fn clone(&self) -> (r: Self)
        ensures
            r@ == self@,
    {
        WinnerOnlyRisk { theta: clone_row(&self.theta) }
    }
}

} // verus!
