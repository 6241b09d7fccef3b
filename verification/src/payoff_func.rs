//! The modular payoff combinator.
//!
//! `ModularPayoff` composes one production function, risk function,
//! contest-success function, reward schedule, disaster cost and action cost
//! into one period's per-agent utility:
//!
//! `u_i = sum_j sigma_j q_j reward_i[j] - (1 - sum_j sigma_j q_j) d_i - c_i`.
//!
//! The vectorized `u` agrees entry by entry with `u_i`: both are proved equal
//! to the one spec-level model [`u_i_model`].

use vstd::prelude::*;
use crate::fx::{Fx, SCALE, add_model, mul_model, sub_model};
use crate::strategies::{Actions, ActionKind, fx_row};
use crate::prod_func::{DefaultProd, ProdV, f_s_model, f_p_model, prod_mutated};
use crate::risk_func::{WinnerOnlyRisk, sigma_model};
use crate::csf::{CSF, q_model};
use crate::reward_func::{LinearReward, RewardV, reward_model};
use crate::disaster_cost::ConstantDisasterCost;
use crate::cost_func::{FixedCost, cost_model};
use crate::errors::ValidationError;

verus! {

/// The mathematical content of a modular payoff: the agent count, the action
/// kind it prices, and each component's view.
#[verifier::ext_equal]
pub struct PayoffV {
    pub n: int,
    pub kind: ActionKind,
    pub prod: ProdV,
    pub theta: Seq<int>,
    pub csf: CSF,
    pub reward: RewardV,
    pub dis: Seq<int>,
    pub cost: Seq<Seq<int>>,
}

/// The per-agent safety signals of one period.
pub open spec fn s_of(pf: PayoffV, m: Seq<Seq<int>>) -> Seq<int> {
    Seq::new(pf.n as nat, |j: int| f_s_model(pf.prod, m, j))
}

/// The per-agent performance signals of one period.
pub open spec fn p_of(pf: PayoffV, m: Seq<Seq<int>>) -> Seq<int> {
    Seq::new(pf.n as nat, |j: int| f_p_model(pf.prod, m, j))
}

/// The probability that agent `j` wins and is safe: `sigma_j * q_j`.
pub open spec fn safe_win_model(pf: PayoffV, m: Seq<Seq<int>>, j: int) -> int {
    mul_model(
        sigma_model(pf.theta, s_of(pf, m), p_of(pf, m), j),
        q_model(pf.csf, p_of(pf, m), j),
    )
}

/// The sum of `sigma_l * q_l` over the first `j` agents (left fold).
pub open spec fn sq_sum(pf: PayoffV, m: Seq<Seq<int>>, j: nat) -> int
    decreases j,
{
    if j == 0 {
        0
    } else {
        add_model(sq_sum(pf, m, (j - 1) as nat), safe_win_model(pf, m, j - 1))
    }
}

/// The sum of `sigma_l * q_l * reward_i[l]` over the first `j` agents (left
/// fold): agent `i`'s expected payment over safe wins.
pub open spec fn rew_sum(pf: PayoffV, m: Seq<Seq<int>>, i: int, j: nat) -> int
    decreases j,
{
    if j == 0 {
        0
    } else {
        add_model(
            rew_sum(pf, m, i, (j - 1) as nat),
            mul_model(safe_win_model(pf, m, j - 1), reward_model(pf.reward, p_of(pf, m), i, j - 1)),
        )
    }
}

/// Agent `i`'s utility for one period: expected reward over safe wins, minus
/// the disaster probability times the disaster cost, minus the action cost.
pub open spec fn u_i_model(pf: PayoffV, m: Seq<Seq<int>>, i: int) -> int {
    let nd = rew_sum(pf, m, i, pf.n as nat);
    let yes_d = mul_model(sub_model(SCALE as int, sq_sum(pf, m, pf.n as nat)), pf.dis[i]);
    sub_model(sub_model(nd, yes_d), cost_model(pf.cost, m, i, pf.kind.k_spec() as nat))
}

/// The payoff after one period of actions: only the production function's
/// growth state changes.
pub open spec fn payoff_mutated(pf: PayoffV, kind: ActionKind, m: Seq<Seq<int>>) -> PayoffV {
    PayoffV { prod: prod_mutated(pf.prod, kind, m), ..pf }
}

/// Well-formedness depends only on the mathematical content: two payoffs
/// with equal views are equally well formed.
pub proof fn lemma_payoff_wf_view(b1: ModularPayoff, b2: ModularPayoff)
    requires
        b1@ == b2@,
        b1.wf(),
    ensures
        b2.wf(),
{
    assert(b2.prod_func@ == b1.prod_func@);
    assert(b2.risk_func@ == b1.risk_func@);
    assert(b2.reward_func@ == b1.reward_func@);
    assert(b2.disaster_cost@ == b1.disaster_cost@);
    assert(b2.cost_func@ == b1.cost_func@);
    assert(b2.cost_func.kind == b1.cost_func.kind);
    assert(b2.n as int == b2@.n && b1.n as int == b1@.n);
}

/// One period's utility function: a production function composed with risk,
/// contest-success, reward, disaster-cost and action-cost components, all of
/// one agent count.
#[derive(Debug)]
pub struct ModularPayoff {
    pub n: usize,
    pub prod_func: DefaultProd,
    pub risk_func: WinnerOnlyRisk,
    pub csf: CSF,
    pub reward_func: LinearReward,
    pub disaster_cost: ConstantDisasterCost,
    pub cost_func: FixedCost,
}

impl View for ModularPayoff {
    type V = PayoffV;

    open spec fn view(&self) -> PayoffV {
        PayoffV {
            n: self.n as int,
            kind: self.cost_func.kind,
            prod: self.prod_func@,
            theta: self.risk_func@,
            csf: self.csf,
            reward: self.reward_func@,
            dis: self.disaster_cost@,
            cost: self.cost_func@,
        }
    }
}

impl ModularPayoff {
    /// The combined invariant: every component well formed and reporting the
    /// same agent count.
    pub open spec fn wf(self) -> bool {
        &&& self.prod_func.wf()
        &&& self.risk_func.wf()
        &&& self.reward_func.wf()
        &&& self.disaster_cost.wf()
        &&& self.cost_func.wf()
        &&& self.prod_func.n_spec() == self.n as int
        &&& self.risk_func.n_spec() == self.n as int
        &&& self.reward_func.n_spec() == self.n as int
        &&& self.disaster_cost.n_spec() == self.n as int
        &&& self.cost_func.n_spec() == self.n as int
        &&& self.n >= 1
    }

    /// The number of agents.
    pub open spec fn n_spec(self) -> int {
        self.n as int
    }

    /// Compose a payoff function.  Fails with `DimensionMismatch` exactly
    /// when the components' agent counts disagree.
    pub fn new(
        prod_func: DefaultProd,
        risk_func: WinnerOnlyRisk,
        csf: CSF,
        reward_func: LinearReward,
        disaster_cost: ConstantDisasterCost,
        cost_func: FixedCost,
    ) -> (r: Result<ModularPayoff, ValidationError>)
        requires
            prod_func.wf(),
            risk_func.wf(),
            reward_func.wf(),
            disaster_cost.wf(),
            cost_func.wf(),
        ensures
            r matches Ok(pf) ==> pf.wf() && pf@ == (PayoffV {
                n: prod_func.n_spec(),
                kind: cost_func.kind,
                prod: prod_func@,
                theta: risk_func@,
                csf: csf,
                reward: reward_func@,
                dis: disaster_cost@,
                cost: cost_func@,
            }),
            r is Ok <==> (risk_func.n_spec() == prod_func.n_spec() && reward_func.n_spec()
                == prod_func.n_spec() && disaster_cost.n_spec() == prod_func.n_spec()
                && cost_func.n_spec() == prod_func.n_spec()),
    {
        let n = prod_func.n();
        if risk_func.n() != n || reward_func.n() != n || disaster_cost.n() != n || cost_func.n()
            != n {
            return Err(ValidationError::DimensionMismatch);
        }
        Ok(ModularPayoff { n, prod_func, risk_func, csf, reward_func, disaster_cost, cost_func })
    }

    /// The number of agents.
    pub fn n(&self) -> (r: usize)
        ensures
            r as int == self.n_spec(),
    {
        self.n
    }

    /// Agent `i`'s utility for one period's actions.
    pub fn u_i(&self, i: usize, actions: &Actions) -> (r: Fx)
        requires
            self.wf(),
            actions.wf(),
            actions.n_spec() == self.n_spec(),
            actions.kind == self@.kind,
            (i as int) < self.n_spec(),
        ensures
            r.v as int == u_i_model(self@, actions@.m, i as int),
    {
        let (s, p) = self.prod_func.f(actions);
        let sigmas = self.risk_func.sigma(&s, &p);
        let qs = self.csf.q(&p);
        proof {
            assert(fx_row(s@) =~= s_of(self@, actions@.m));
            assert(fx_row(p@) =~= p_of(self@, actions@.m));
        }
        let rewards = self.reward_func.reward(i, &p);
        let n = self.n;
        let mut nd = Fx::zero();
        let mut sq = Fx::zero();
        for j in 0..n
            invariant
                n as int == self.n_spec(),
                self.wf(),
                actions.wf(),
                actions.n_spec() == self.n_spec(),
                actions.kind == self@.kind,
                (i as int) < self.n_spec(),
                s@.len() == n && p@.len() == n && sigmas@.len() == n && qs@.len() == n
                    && rewards@.len() == n,
                fx_row(s@) == s_of(self@, actions@.m),
                fx_row(p@) == p_of(self@, actions@.m),
                forall|l: int|
                    0 <= l < n ==> (#[trigger] sigmas@[l]).v as int == sigma_model(
                        self@.theta,
                        s_of(self@, actions@.m),
                        p_of(self@, actions@.m),
                        l,
                    ),
                forall|l: int|
                    0 <= l < n ==> (#[trigger] qs@[l]).v as int == q_model(
                        self@.csf,
                        p_of(self@, actions@.m),
                        l,
                    ),
                forall|l: int|
                    0 <= l < n ==> (#[trigger] rewards@[l]).v as int == reward_model(
                        self@.reward,
                        p_of(self@, actions@.m),
                        i as int,
                        l,
                    ),
                nd.v as int == rew_sum(self@, actions@.m, i as int, j as nat),
                sq.v as int == sq_sum(self@, actions@.m, j as nat),
        {
            let sw = sigmas[j].mul(qs[j]);
            nd = nd.add(sw.mul(rewards[j]));
            sq = sq.add(sw);
        }
        let yes_d = Fx::one().sub(sq).mul(self.disaster_cost.d_i(i, &s, &p));
        nd.sub(yes_d).sub(self.cost_func.c_i(i, actions))
    }

    /// Every agent's utility for one period's actions; entry `i` equals
    /// `u_i(i, actions)` exactly.
    pub fn u(&self, actions: &Actions) -> (r: Vec<Fx>)
        requires
            self.wf(),
            actions.wf(),
            actions.n_spec() == self.n_spec(),
            actions.kind == self@.kind,
        ensures
            r@.len() == self.n_spec(),
            forall|i: int|
                0 <= i < r@.len() ==> (#[trigger] r@[i]).v as int == u_i_model(
                    self@,
                    actions@.m,
                    i,
                ),
    {
        let n = self.n;
        let mut r: Vec<Fx> = Vec::new();
        for i in 0..n
            invariant
                n as int == self.n_spec(),
                self.wf(),
                actions.wf(),
                actions.n_spec() == self.n_spec(),
                actions.kind == self@.kind,
                r@.len() == i,
                forall|q: int|
                    0 <= q < i ==> (#[trigger] r@[q]).v as int == u_i_model(self@, actions@.m, q),
        {
            r.push(self.u_i(i, actions));
        }
        r
    }

    /// Advance the payoff by one period of actions: only the production
    /// function's growth state changes.
    pub fn mutate_on(&mut self, actions: &Actions)
        requires
            old(self).wf(),
            actions.wf(),
        ensures
            final(self)@ == payoff_mutated(old(self)@, actions.kind, actions@.m),
            final(self).wf(),
            final(self).n_spec() == old(self).n_spec(),
    {
        self.prod_func.mutate_on(actions);
        proof {
            assert(self@ =~= payoff_mutated(old(self)@, actions.kind, actions@.m));
        }
    }
}

impl Clone for ModularPayoff {
    /// Cloning keeps every component.
    fn clone(&self) -> (r: Self)
        ensures
            r@ == self@,
    {
        let r = ModularPayoff {
            n: self.n,
            prod_func: self.prod_func.clone(),
            risk_func: self.risk_func.clone(),
            csf: self.csf,
            reward_func: self.reward_func.clone(),
            disaster_cost: self.disaster_cost.clone(),
            cost_func: self.cost_func.clone(),
        };
        proof {
            assert(r@ =~= self@);
        }
        r
    }
}

} // verus!
