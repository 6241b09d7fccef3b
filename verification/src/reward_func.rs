//! The reward schedule: what each agent receives when a given agent wins.
//!
//! `LinearReward` pays agent `j` the amount `win_a_j + win_b_j * p_j` when
//! `j` itself wins and `lose_a_j + lose_b_j * p_j` when someone else does.

use vstd::prelude::*;
use crate::fx::{Fx, SCALE, add_model, mul_model};
use crate::strategies::fx_row;
use crate::errors::ValidationError;
use crate::utils::clone_row;

verus! {

/// The mathematical content of a linear reward schedule.
#[verifier::ext_equal]
pub struct RewardV {
    pub win_a: Seq<int>,
    pub win_b: Seq<int>,
    pub lose_a: Seq<int>,
    pub lose_b: Seq<int>,
}

/// What agent `j` receives when it wins: `win_a_j + win_b_j * p_j`.
pub open spec fn win_model(rv: RewardV, p: Seq<int>, j: int) -> int {
    add_model(rv.win_a[j], mul_model(rv.win_b[j], p[j]))
}

/// What agent `j` receives when another agent wins: `lose_a_j + lose_b_j * p_j`.
pub open spec fn lose_model(rv: RewardV, p: Seq<int>, j: int) -> int {
    add_model(rv.lose_a[j], mul_model(rv.lose_b[j], p[j]))
}

/// What agent `j` receives when agent `i` wins.
pub open spec fn reward_model(rv: RewardV, p: Seq<int>, i: int, j: int) -> int {
    if j == i {
        win_model(rv, p, j)
    } else {
        lose_model(rv, p, j)
    }
}

/// Rewards linear in the performance signal, with separate win and lose
/// intercepts and slopes per agent.
#[derive(Debug)]
pub struct LinearReward {
    pub win_a: Vec<Fx>,
    pub win_b: Vec<Fx>,
    pub lose_a: Vec<Fx>,
    pub lose_b: Vec<Fx>,
}

impl View for LinearReward {
    type V = RewardV;

    open spec fn view(&self) -> RewardV {
        RewardV {
            win_a: fx_row(self.win_a@),
            win_b: fx_row(self.win_b@),
            lose_a: fx_row(self.lose_a@),
            lose_b: fx_row(self.lose_b@),
        }
    }
}

impl LinearReward {
    /// The shape invariant: all four vectors of one length, at least one
    /// agent.
    pub open spec fn wf(self) -> bool {
        &&& self@.win_a.len() >= 1
        &&& self@.win_b.len() == self@.win_a.len()
        &&& self@.lose_a.len() == self@.win_a.len()
        &&& self@.lose_b.len() == self@.win_a.len()
    }

    /// The number of agents.
    pub open spec fn n_spec(self) -> int {
        self@.win_a.len() as int
    }

    /// Build a reward schedule.  Fails with `EmptyList` when no agent is
    /// described and `DimensionMismatch` when the lengths disagree.
    pub fn new(win_a: Vec<Fx>, win_b: Vec<Fx>, lose_a: Vec<Fx>, lose_b: Vec<Fx>) -> (r: Result<
        LinearReward,
        ValidationError,
    >)
        ensures
            r matches Ok(w) ==> w.wf() && w@ == (RewardV {
                win_a: fx_row(win_a@),
                win_b: fx_row(win_b@),
                lose_a: fx_row(lose_a@),
                lose_b: fx_row(lose_b@),
            }),
            r is Ok <==> (win_a@.len() >= 1 && win_b@.len() == win_a@.len() && lose_a@.len()
                == win_a@.len() && lose_b@.len() == win_a@.len()),
    {
        if win_a.len() == 0 {
            return Err(ValidationError::EmptyList);
        }
        if win_b.len() != win_a.len() || lose_a.len() != win_a.len() || lose_b.len()
            != win_a.len() {
            return Err(ValidationError::DimensionMismatch);
        }
        Ok(LinearReward { win_a, win_b, lose_a, lose_b })
    }

    /// The schedule that pays the winner one unit and everyone else nothing.
    pub fn default(n: usize) -> (r: Result<LinearReward, ValidationError>)
        ensures
            r matches Ok(w) ==> w.wf() && w.n_spec() == n as int && (forall|j: int|
                0 <= j < n as int ==> w@.win_a[j] == SCALE as int && #[trigger] w@.win_b[j] == 0
                    && w@.lose_a[j] == 0 && w@.lose_b[j] == 0),
            r is Ok <==> n >= 1,
    {
        let mut win_a: Vec<Fx> = Vec::new();
        let mut zeros: Vec<Fx> = Vec::new();
        for i in 0..n
            invariant
                win_a@.len() == i,
                zeros@.len() == i,
                forall|p: int| 0 <= p < i ==> (#[trigger] win_a@[p]).v == SCALE,
                forall|p: int| 0 <= p < i ==> (#[trigger] zeros@[p]).v == 0,
        {
            win_a.push(Fx::one());
            zeros.push(Fx::zero());
        }
        let zeros2 = clone_row(&zeros);
        let zeros3 = clone_row(&zeros);
        LinearReward::new(win_a, zeros, zeros2, zeros3)
    }

    /// The number of agents.
    pub fn n(&self) -> (r: usize)
        ensures
            r as int == self.n_spec(),
    {
        self.win_a.len()
    }

    /// Agent `j`'s payment when it wins.
    pub fn win_i(&self, j: usize, p: &Vec<Fx>) -> (r: Fx)
        requires
            self.wf(),
            (j as int) < self.n_spec(),
            (j as int) < p@.len(),
        ensures
            r.v as int == win_model(self@, fx_row(p@), j as int),
    {
        proof {
            assert(fx_row(p@)[j as int] == p@[j as int].v as int);
        }
        self.win_a[j].add(self.win_b[j].mul(p[j]))
    }

    /// Agent `j`'s payment when another agent wins.
    pub fn lose_i(&self, j: usize, p: &Vec<Fx>) -> (r: Fx)
        requires
            self.wf(),
            (j as int) < self.n_spec(),
            (j as int) < p@.len(),
        ensures
            r.v as int == lose_model(self@, fx_row(p@), j as int),
    {
        proof {
            assert(fx_row(p@)[j as int] == p@[j as int].v as int);
        }
        self.lose_a[j].add(self.lose_b[j].mul(p[j]))
    }

    /// Every agent's payment when agent `i` wins, as perceived by the belief
    /// holding this schedule.
    pub fn reward(&self, i: usize, p: &Vec<Fx>) -> (r: Vec<Fx>)
        requires
            self.wf(),
            p@.len() == self.n_spec(),
        ensures
            r@.len() == self.n_spec(),
            forall|j: int|
                0 <= j < r@.len() ==> (#[trigger] r@[j]).v as int == reward_model(
                    self@,
                    fx_row(p@),
                    i as int,
                    j,
                ),
    {
        let n = self.win_a.len();
        let mut r: Vec<Fx> = Vec::new();
        for j in 0..n
            invariant
                n as int == self.n_spec(),
                self.wf(),
                p@.len() == n,
                r@.len() == j,
                forall|q: int|
                    0 <= q < j ==> (#[trigger] r@[q]).v as int == reward_model(
                        self@,
                        fx_row(p@),
                        i as int,
                        q,
                    ),
        {
            if j == i {
                r.push(self.win_i(j, p));
            } else {
                r.push(self.lose_i(j, p));
            }
        }
        r
    }
}

impl Clone for LinearReward {
    /// Cloning keeps all four coefficient vectors.
    fn clone(&self) -> (r: Self)
        ensures
            r@ == self@,
    {
        let r = LinearReward {
            win_a: clone_row(&self.win_a),
            win_b: clone_row(&self.win_b),
            lose_a: clone_row(&self.lose_a),
            lose_b: clone_row(&self.lose_b),
        };
        proof {
            assert(r@ =~= self@);
        }
        r
    }
}

} // verus!
