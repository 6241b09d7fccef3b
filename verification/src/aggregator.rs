//! Temporal aggregation: drive a belief state through a strategy, discount
//! each period's utility geometrically, and optionally weight it by the
//! probability that the contest has not yet been won.
//!
//! One `Aggregator` covers the three temporal rules of the model:
//! - a fixed state (`advances == false`): beliefs never change;
//! - a dynamic state (`advances == true`): after every period but the last,
//!   the beliefs advance on the period's actions;
//! - the contest-ending rule (`ends_on_win == true`): each agent's period-`t`
//!   utility is additionally weighted by the probability, under its own
//!   belief, that no agent has won before `t`; the state also advances.
//!
//! The per-period survival factor `1 - sum_j q_j` is clamped into `[0, 1]`,
//! so the survival trajectory is always a probability, even where saturated
//! fixed-point sums would leave the range.

use vstd::prelude::*;
use crate::fx::{
    Fx, SCALE, add_model, mul_model, sub_model, clamp01_model, lemma_mul_model_probability,
};
use crate::fxpow::powi_model;
use crate::strategies::{Strategies, ActionKind, ActionsV, Actions};
use crate::state::{State, StateV, belief_of, state_n, state_mutated};
use crate::payoff_func::{PayoffV, u_i_model, p_of};
use crate::csf::{qsum_model, lemma_sum_is_qsum, sum_vec};
use crate::errors::ValidationError;

verus! {

/// The action matrices of a strategy profile, one per period.
pub open spec fn strat_mats(s: Seq<ActionsV>) -> Seq<Seq<Seq<int>>> {
    s.map_values(|a: ActionsV| a.m)
}

/// The mathematical content of an aggregator.
#[verifier::ext_equal]
pub struct AggV {
    pub state: StateV,
    pub gammas: Seq<int>,
    pub advances: bool,
    pub ends_on_win: bool,
}

/// The probability, under belief `pf`, that some agent wins a period with
/// action matrix `m`.
pub open spec fn qsum_of(pf: PayoffV, m: Seq<Seq<int>>) -> int {
    qsum_model(pf.csf, p_of(pf, m), pf.n as nat)
}

/// The probability, under belief `pf`, that nobody wins a period with action
/// matrix `m`: `1 - sum_j q_j`, clamped into `[0, 1]`.
pub open spec fn survival_factor(pf: PayoffV, m: Seq<Seq<int>>) -> int {
    clamp01_model(sub_model(SCALE as int, qsum_of(pf, m)))
}

/// Agent `i`'s aggregate utility from period `t` on, given the current state
/// `sv`, the survival probability `proba` entering period `t`, and the
/// utility `acc` accumulated so far.  After every period but the last, the
/// state advances (when the aggregator is dynamic or contest-ending) and the
/// survival probability shrinks by the survival factor (when contest-ending).
pub open spec fn u_i_rec(
    a: AggV,
    kind: ActionKind,
    sm: Seq<Seq<Seq<int>>>,
    i: int,
    t: nat,
    sv: StateV,
    proba: int,
    acc: int,
) -> int
    decreases sm.len() - t,
{
    if t >= sm.len() {
        acc
    } else {
        let pf = belief_of(sv, i);
        let per = u_i_model(pf, sm[t as int], i);
        let w = if a.ends_on_win {
            mul_model(mul_model(proba, powi_model(a.gammas[i], t)), per)
        } else {
            mul_model(powi_model(a.gammas[i], t), per)
        };
        let acc2 = add_model(acc, w);
        let sv2 = if t + 1 < sm.len() && (a.advances || a.ends_on_win) {
            state_mutated(sv, kind, sm[t as int])
        } else {
            sv
        };
        let proba2 = if t + 1 < sm.len() && a.ends_on_win {
            mul_model(proba, survival_factor(pf, sm[t as int]))
        } else {
            proba
        };
        u_i_rec(a, kind, sm, i, (t + 1) as nat, sv2, proba2, acc2)
    }
}

/// Agent `i`'s aggregate utility over a whole strategy:
/// `sum_t proba_i(t) * gamma_i^t * u_i(t)`, with `proba_i(t) == 1` when the
/// aggregator is not contest-ending.
pub open spec fn agg_u_i_model(a: AggV, kind: ActionKind, sm: Seq<Seq<Seq<int>>>, i: int) -> int {
    u_i_rec(a, kind, sm, i, 0, a.state, SCALE as int, 0)
}

/// The survival-probability trajectory: row `t` holds, per agent, the
/// probability entering period `t` that nobody has won yet.
pub open spec fn probas_rec(
    a: AggV,
    kind: ActionKind,
    sm: Seq<Seq<Seq<int>>>,
    t: nat,
    sv: StateV,
    pr: Seq<int>,
    out: Seq<Seq<int>>,
) -> Seq<Seq<int>>
    decreases sm.len() - t,
{
    if t >= sm.len() {
        out
    } else {
        let out2 = out.push(pr);
        let pr2 = if t + 1 < sm.len() {
            Seq::new(pr.len(), |i: int| mul_model(pr[i], survival_factor(belief_of(sv, i), sm[t as int])))
        } else {
            pr
        };
        let sv2 = if t + 1 < sm.len() {
            state_mutated(sv, kind, sm[t as int])
        } else {
            sv
        };
        probas_rec(a, kind, sm, (t + 1) as nat, sv2, pr2, out2)
    }
}

/// The survival-probability trajectory of a whole strategy: period 0 has
/// probability one for every agent.
pub open spec fn probas_model(a: AggV, kind: ActionKind, sm: Seq<Seq<Seq<int>>>) -> Seq<Seq<int>> {
    probas_rec(
        a,
        kind,
        sm,
        0,
        a.state,
        Seq::new(state_n(a.state) as nat, |i: int| SCALE as int),
        Seq::empty(),
    )
}

/// The independently computed geometric discounting sum
/// `sum_{t < j} g^t * u_i(t)` against one fixed belief.
pub open spec fn discounted_sum(pf: PayoffV, g: int, sm: Seq<Seq<Seq<int>>>, i: int, j: nat) -> int
    decreases j,
{
    if j == 0 {
        0
    } else {
        add_model(
            discounted_sum(pf, g, sm, i, (j - 1) as nat),
            mul_model(powi_model(g, (j - 1) as nat), u_i_model(pf, sm[j - 1], i)),
        )
    }
}

/// A temporal aggregator: an initial belief state, per-agent discount
/// factors, and the flags selecting state dynamics and the contest-ending
/// rule.
#[derive(Debug)]
pub struct Aggregator {
    pub state0: State,
    pub gammas: Vec<Fx>,
    pub advances: bool,
    pub ends_on_win: bool,
}

impl View for Aggregator {
    type V = AggV;

    open spec fn view(&self) -> AggV {
        AggV {
            state: self.state0@,
            gammas: crate::strategies::fx_row(self.gammas@),
            advances: self.advances,
            ends_on_win: self.ends_on_win,
        }
    }
}

impl Aggregator {
    /// The invariant: a well-formed state, one discount factor per agent, and
    /// one action kind shared by every belief.
    pub open spec fn wf(self) -> bool {
        &&& self.state0.wf()
        &&& self.gammas@.len() == state_n(self.state0@)
        &&& forall|i: int|
            0 <= i < state_n(self.state0@) ==> #[trigger] belief_of(self.state0@, i).kind
                == self.kind_spec()
    }

    /// The action kind the aggregator's beliefs price.
    pub open spec fn kind_spec(self) -> ActionKind {
        belief_of(self.state0@, 0).kind
    }

    /// The number of agents.
    pub open spec fn n_spec(self) -> int {
        state_n(self.state0@)
    }

    /// Build an aggregator over an initial state.  Fails with
    /// `DimensionMismatch` exactly when the discount vector's length differs
    /// from the agent count or the beliefs price different action kinds.
    pub fn new(state0: State, gammas: Vec<Fx>, advances: bool, ends_on_win: bool) -> (r: Result<
        Aggregator,
        ValidationError,
    >)
        requires
            state0.wf(),
        ensures
            r matches Ok(a) ==> a.wf() && a@ == (AggV {
                state: state0@,
                gammas: crate::strategies::fx_row(gammas@),
                advances,
                ends_on_win,
            }),
            r is Ok <==> (gammas@.len() == state_n(state0@) && forall|i: int|
                0 <= i < state_n(state0@) ==> #[trigger] belief_of(state0@, i).kind == belief_of(
                    state0@,
                    0,
                ).kind),
    {
        let n = state0.n();
        if gammas.len() != n {
            return Err(ValidationError::DimensionMismatch);
        }
        let kind0 = state0.belief(0).cost_func.kind;
        for i in 0..n
            invariant
                n as int == state_n(state0@),
                state0.wf(),
                kind0 == belief_of(state0@, 0).kind,
                forall|p: int|
                    0 <= p < i ==> #[trigger] belief_of(state0@, p).kind == belief_of(
                        state0@,
                        0,
                    ).kind,
        {
            let b = state0.belief(i);
            proof {
                assert(b@.kind == belief_of(state0@, i as int).kind);
            }
            if b.cost_func.kind != kind0 {
                return Err(ValidationError::DimensionMismatch);
            }
        }
        Ok(Aggregator { state0, gammas, advances, ends_on_win })
    }

    /// The number of agents.
    pub fn n(&self) -> (r: usize)
        requires
            self.wf(),
        ensures
            r as int == self.n_spec(),
    {
        self.state0.n()
    }

    /// Whether a strategy profile fits this aggregator: same agent count and
    /// action kind.
    pub open spec fn fits(self, strat: Strategies) -> bool {
        &&& strat.wf()
        &&& strat.n_spec() == self.n_spec()
        &&& strat.kind_spec() == self.kind_spec()
    }

    /// Agent `i`'s discounted aggregate utility over the strategy.  The
    /// result is a function of the aggregator's and the strategy's
    /// mathematical content alone, so repeated calls agree.
    pub fn u_i(&self, i: usize, strat: &Strategies) -> (r: Fx)
        requires
            self.wf(),
            self.fits(*strat),
            (i as int) < self.n_spec(),
        ensures
            r.v as int == agg_u_i_model(self@, strat.kind_spec(), strat_mats(strat@), i as int),
    {
        let ghost sm = strat_mats(strat@);
        let ghost kind = strat.kind_spec();
        let t_len = strat.t();
        let mut state = self.state0.clone();
        let mut proba = Fx::one();
        let mut gpow = Fx::one();
        let mut u = Fx::zero();
        let gamma = self.gammas[i];
        proof {
            assert(self@.gammas[i as int] == self.gammas@[i as int].v as int);
        }
        for t in 0..t_len
            invariant
                t_len as int == sm.len(),
                sm == strat_mats(strat@),
                kind == strat.kind_spec(),
                self.wf(),
                self.fits(*strat),
                (i as int) < self.n_spec(),
                gamma == self.gammas@[i as int],
                gamma.v as int == self@.gammas[i as int],
                state.wf(),
                state_n(state@) == self.n_spec(),
                forall|j: int|
                    0 <= j < state_n(state@) ==> #[trigger] belief_of(state@, j).kind
                        == self.kind_spec(),
                gpow.v as int == powi_model(gamma.v as int, t as nat),
                u_i_rec(self@, kind, sm, i as int, t as nat, state@, proba.v as int, u.v as int)
                    == agg_u_i_model(self@, kind, sm, i as int),
        {
            proof {
                assert(sm[t as int] == strat@[t as int].m);
                assert(strat@[t as int] == strat.acts@[t as int]@);
            }
            let actions = &strat.acts[t];
            let pf = state.belief(i);
            let per = pf.u_i(i, actions);
            let w = if self.ends_on_win {
                proba.mul(gpow).mul(per)
            } else {
                gpow.mul(per)
            };
            u = u.add(w);
            if t + 1 < t_len {
                if self.ends_on_win {
                    let (_s, p) = pf.prod_func.f(actions);
                    let qs = pf.csf.q(&p);
                    let qsum = sum_vec(&qs);
                    proof {
                        assert(crate::strategies::fx_row(p@) =~= p_of(pf@, actions@.m));
                        lemma_sum_is_qsum(
                            crate::strategies::fx_row(qs@),
                            pf@.csf,
                            p_of(pf@, actions@.m),
                            pf@.n as nat,
                        );
                    }
                    let factor = Fx::one().sub(qsum).clamp01();
                    proba = proba.mul(factor);
                }
                if self.advances || self.ends_on_win {
                    proof {
                        crate::state::lemma_state_mutated_fields(state@, actions.kind, actions@.m);
                    }
                    state.mutate_on(actions);
                }
            }
            gpow = gpow.mul(gamma);
        }
        u
    }

    /// Every agent's discounted aggregate utility; entry `i` equals
    /// `u_i(i, strat)` exactly, and repeated calls agree.
    pub fn u(&self, strat: &Strategies) -> (r: Vec<Fx>)
        requires
            self.wf(),
            self.fits(*strat),
        ensures
            r@.len() == self.n_spec(),
            forall|i: int|
                0 <= i < r@.len() ==> (#[trigger] r@[i]).v as int == agg_u_i_model(
                    self@,
                    strat.kind_spec(),
                    strat_mats(strat@),
                    i,
                ),
    {
        let n = self.n();
        let mut r: Vec<Fx> = Vec::new();
        for i in 0..n
            invariant
                n as int == self.n_spec(),
                self.wf(),
                self.fits(*strat),
                r@.len() == i,
                forall|q: int|
                    0 <= q < i ==> (#[trigger] r@[q]).v as int == agg_u_i_model(
                        self@,
                        strat.kind_spec(),
                        strat_mats(strat@),
                        q,
                    ),
        {
            r.push(self.u_i(i, strat));
        }
        r
    }

    /// The survival-probability trajectory, one row per period and one column
    /// per agent.  Fails with `NotEndsOnContestWin` exactly when the
    /// aggregator does not use the contest-ending rule.
    pub fn probas(&self, strat: &Strategies) -> (r: Result<Vec<Vec<Fx>>, ValidationError>)
        requires
            self.wf(),
            self.fits(*strat),
        ensures
            r is Ok <==> self.ends_on_win,
            r matches Ok(rows) ==> crate::strategies::fx_mat(rows@) == probas_model(
                self@,
                strat.kind_spec(),
                strat_mats(strat@),
            ),
    {
        if !self.ends_on_win {
            return Err(ValidationError::NotEndsOnContestWin);
        }
        let ghost sm = strat_mats(strat@);
        let ghost kind = strat.kind_spec();
        let t_len = strat.t();
        let n = self.n();
        let mut state = self.state0.clone();
        let mut pr: Vec<Fx> = Vec::new();
        for i in 0..n
            invariant
                pr@.len() == i,
                forall|p: int| 0 <= p < i ==> (#[trigger] pr@[p]).v == SCALE,
        {
            pr.push(Fx::one());
        }
        proof {
            assert(crate::strategies::fx_row(pr@) =~= Seq::new(
                state_n(self@.state) as nat,
                |i: int| SCALE as int,
            ));
        }
        let mut out: Vec<Vec<Fx>> = Vec::new();
        proof {
            assert(crate::strategies::fx_mat(out@) =~= Seq::<Seq<int>>::empty());
        }
        for t in 0..t_len
            invariant
                t_len as int == sm.len(),
                sm == strat_mats(strat@),
                kind == strat.kind_spec(),
                self.wf(),
                self.fits(*strat),
                n as int == self.n_spec(),
                state.wf(),
                state_n(state@) == self.n_spec(),
                forall|j: int|
                    0 <= j < state_n(state@) ==> #[trigger] belief_of(state@, j).kind
                        == self.kind_spec(),
                pr@.len() == n,
                out@.len() == t,
                probas_rec(
                    self@,
                    kind,
                    sm,
                    t as nat,
                    state@,
                    crate::strategies::fx_row(pr@),
                    crate::strategies::fx_mat(out@),
                ) == probas_model(self@, kind, sm),
        {
            proof {
                assert(sm[t as int] == strat@[t as int].m);
                assert(strat@[t as int] == strat.acts@[t as int]@);
            }
            let actions = &strat.acts[t];
            let row = crate::utils::clone_row(&pr);
            let ghost old_out = out@;
            let ghost old_pr = crate::strategies::fx_row(pr@);
            out.push(row);
            proof {
                assert(crate::strategies::fx_mat(out@) =~= crate::strategies::fx_mat(
                    old_out,
                ).push(old_pr));
            }
            if t + 1 < t_len {
                let mut npr: Vec<Fx> = Vec::new();
                for i in 0..n
                    invariant
                        n as int == self.n_spec(),
                        self.wf(),
                        self.fits(*strat),
                        t_len as int == sm.len(),
                        sm == strat_mats(strat@),
                        (t as int) < sm.len(),
                        sm[t as int] == actions@.m,
                        actions == &strat.acts@[t as int],
                        strat.wf(),
                        actions.wf(),
                        actions.kind == self.kind_spec(),
                        actions.n_spec() == self.n_spec(),
                        state.wf(),
                        state_n(state@) == self.n_spec(),
                        forall|j: int|
                            0 <= j < state_n(state@) ==> #[trigger] belief_of(state@, j).kind
                                == self.kind_spec(),
                        pr@.len() == n,
                        old_pr == crate::strategies::fx_row(pr@),
                        npr@.len() == i,
                        forall|p: int|
                            0 <= p < i ==> (#[trigger] npr@[p]).v as int == mul_model(
                                old_pr[p],
                                survival_factor(belief_of(state@, p), sm[t as int]),
                            ),
                {
                    let pf = state.belief(i);
                    let (_s, p) = pf.prod_func.f(actions);
                    let qs = pf.csf.q(&p);
                    let qsum = sum_vec(&qs);
                    proof {
                        assert(crate::strategies::fx_row(p@) =~= p_of(pf@, actions@.m));
                        lemma_sum_is_qsum(
                            crate::strategies::fx_row(qs@),
                            pf@.csf,
                            p_of(pf@, actions@.m),
                            pf@.n as nat,
                        );
                        assert(old_pr[i as int] == pr@[i as int].v as int);
                    }
                    let factor = Fx::one().sub(qsum).clamp01();
                    npr.push(pr[i].mul(factor));
                }
                pr = npr;
                proof {
                    assert(crate::strategies::fx_row(pr@) =~= Seq::new(
                        old_pr.len(),
                        |i: int| mul_model(old_pr[i], survival_factor(belief_of(state@, i), sm[t as int])),
                    ));
                    crate::state::lemma_state_mutated_fields(state@, actions.kind, actions@.m);
                }
                state.mutate_on(actions);
            }
        }
        Ok(out)
    }
}

impl Clone for Aggregator {
    /// Cloning keeps the state, discount factors and flags.
    fn clone(&self) -> (r: Self)
        ensures
            r@ == self@,
    {
        let r = Aggregator {
            state0: self.state0.clone(),
            gammas: crate::utils::clone_row(&self.gammas),
            advances: self.advances,
            ends_on_win: self.ends_on_win,
        };
        proof {
            assert(r@ =~= self@);
        }
        r
    }
}

/// With a fixed state and no contest-ending rule, the aggregate utility is
/// exactly the geometric discounting sum `sum_t g^t * u_i(t)` computed
/// independently against the unchanging belief.
pub proof fn lemma_fixed_state_geometric(a: AggV, kind: ActionKind, sm: Seq<Seq<Seq<int>>>, i: int)
    requires
        !a.advances,
        !a.ends_on_win,
    ensures
        agg_u_i_model(a, kind, sm, i) == discounted_sum(
            belief_of(a.state, i),
            a.gammas[i],
            sm,
            i,
            sm.len(),
        ),
{
    lemma_fixed_state_geometric_rec(a, kind, sm, i, 0, SCALE as int);
}

/// Induction step for [`lemma_fixed_state_geometric`]: from period `t` on,
/// the recursion started at the partial sum yields the full sum.
proof fn lemma_fixed_state_geometric_rec(
    a: AggV,
    kind: ActionKind,
    sm: Seq<Seq<Seq<int>>>,
    i: int,
    t: nat,
    proba: int,
)
    requires
        !a.advances,
        !a.ends_on_win,
        t <= sm.len(),
    ensures
        u_i_rec(
            a,
            kind,
            sm,
            i,
            t,
            a.state,
            proba,
            discounted_sum(belief_of(a.state, i), a.gammas[i], sm, i, t),
        ) == discounted_sum(belief_of(a.state, i), a.gammas[i], sm, i, sm.len()),
    decreases sm.len() - t,
{
    if t < sm.len() {
        lemma_fixed_state_geometric_rec(a, kind, sm, i, (t + 1) as nat, proba);
    }
}

/// The survival-probability trajectory has one row per period and one entry
/// per agent; every entry is a probability, period 0 is all ones, and each
/// agent's trajectory is non-increasing over time.
pub proof fn lemma_probas_monotone(a: AggV, kind: ActionKind, sm: Seq<Seq<Seq<int>>>)
    requires
        state_n(a.state) >= 0,
    ensures
        probas_model(a, kind, sm).len() == sm.len(),
        forall|t: int|
            0 <= t < sm.len() ==> (#[trigger] probas_model(a, kind, sm)[t]).len() == state_n(
                a.state,
            ),
        sm.len() > 0 ==> forall|i: int|
            0 <= i < state_n(a.state) ==> probas_model(a, kind, sm)[0][i] == SCALE as int,
        forall|t: int, i: int|
            0 <= t < sm.len() && 0 <= i < state_n(a.state) ==> 0 <= #[trigger] probas_model(
                a,
                kind,
                sm,
            )[t][i] <= SCALE as int,
        forall|t: int, i: int|
            1 <= t < sm.len() && 0 <= i < state_n(a.state) ==> #[trigger] probas_model(
                a,
                kind,
                sm,
            )[t][i] <= probas_model(a, kind, sm)[t - 1][i],
{
    let pr0 = Seq::new(state_n(a.state) as nat, |i: int| SCALE as int);
    lemma_probas_rec_monotone(a, kind, sm, 0, a.state, pr0, Seq::empty());
}

/// Induction for [`lemma_probas_monotone`]: rows appended from period `t` on
/// start at `pr`, stay probabilities, and never increase.
proof fn lemma_probas_rec_monotone(
    a: AggV,
    kind: ActionKind,
    sm: Seq<Seq<Seq<int>>>,
    t: nat,
    sv: StateV,
    pr: Seq<int>,
    out: Seq<Seq<int>>,
)
    requires
        t <= sm.len(),
        forall|i: int| 0 <= i < pr.len() ==> 0 <= #[trigger] pr[i] <= SCALE as int,
    ensures
        probas_rec(a, kind, sm, t, sv, pr, out).len() == out.len() + sm.len() - t,
        forall|k: int|
            0 <= k < out.len() ==> #[trigger] probas_rec(a, kind, sm, t, sv, pr, out)[k] == out[k],
        t < sm.len() ==> probas_rec(a, kind, sm, t, sv, pr, out)[out.len() as int] == pr,
        forall|k: int|
            out.len() <= k < out.len() + sm.len() - t ==> (#[trigger] probas_rec(
                a,
                kind,
                sm,
                t,
                sv,
                pr,
                out,
            )[k]).len() == pr.len(),
        forall|k: int, i: int|
            out.len() <= k < out.len() + sm.len() - t && 0 <= i < pr.len() ==> 0 <= #[trigger] probas_rec(
                a,
                kind,
                sm,
                t,
                sv,
                pr,
                out,
            )[k][i] <= SCALE as int,
        forall|k: int, i: int|
            out.len() < k < out.len() + sm.len() - t && 0 <= i < pr.len() ==> #[trigger] probas_rec(
                a,
                kind,
                sm,
                t,
                sv,
                pr,
                out,
            )[k][i] <= probas_rec(a, kind, sm, t, sv, pr, out)[k - 1][i],
    decreases sm.len() - t,
{
    if t < sm.len() {
        let out2 = out.push(pr);
        let pr2 = if t + 1 < sm.len() {
            Seq::new(pr.len(), |i: int| mul_model(pr[i], survival_factor(belief_of(sv, i), sm[t as int])))
        } else {
            pr
        };
        let sv2 = if t + 1 < sm.len() {
            state_mutated(sv, kind, sm[t as int])
        } else {
            sv
        };
        assert forall|i: int| 0 <= i < pr2.len() implies 0 <= #[trigger] pr2[i] <= SCALE as int by {
            if t + 1 < sm.len() {
                lemma_mul_model_probability(pr[i], survival_factor(belief_of(sv, i), sm[t as int]));
            }
        }
        assert forall|i: int| 0 <= i < pr.len() implies pr2[i] <= pr[i] by {
            if t + 1 < sm.len() {
                lemma_mul_model_probability(pr[i], survival_factor(belief_of(sv, i), sm[t as int]));
            }
        }
        lemma_probas_rec_monotone(a, kind, sm, (t + 1) as nat, sv2, pr2, out2);
    }
}

} // verus!
