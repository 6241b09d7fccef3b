//! The action cost: a fixed per-agent rate on every action column.
//!
//! `FixedCost` charges agent `i` the dot product of its rate row with its
//! action row, so every effort, investment and sharing column bears a linear
//! cost.

use vstd::prelude::*;
use crate::fx::{Fx, add_model, mul_model};
use crate::strategies::{Actions, ActionKind, fx_row, fx_mat, mat_wf};
use crate::errors::ValidationError;
use crate::utils::clone_row;

verus! {

/// The dot product of the first `j` paired entries, folded left with
/// saturating arithmetic.
pub open spec fn dot_model(r: Seq<int>, x: Seq<int>, j: nat) -> int
    decreases j,
{
    if j == 0 {
        0
    } else {
        add_model(dot_model(r, x, (j - 1) as nat), mul_model(r[j - 1], x[j - 1]))
    }
}

/// Agent `i`'s action cost: the dot product of its rate row with its action
/// row.
pub open spec fn cost_model(rates: Seq<Seq<int>>, m: Seq<Seq<int>>, i: int, k: nat) -> int {
    dot_model(rates[i], m[i], k)
}

/// A linear cost on every action column: one rate row per agent, as wide as
/// the action kind.
#[derive(Debug)]
pub struct FixedCost {
    pub kind: ActionKind,
    pub rates: Vec<Vec<Fx>>,
}

impl View for FixedCost {
    type V = Seq<Seq<int>>;

    open spec fn view(&self) -> Seq<Seq<int>> {
        fx_mat(self.rates@)
    }
}

impl FixedCost {
    /// The shape invariant: at least one agent, every rate row as wide as the
    /// action kind.
    pub open spec fn wf(self) -> bool {
        &&& self@.len() >= 1
        &&& forall|i: int| 0 <= i < self@.len() ==> (#[trigger] self@[i]).len()
            == self.kind.k_spec()
    }

    /// The number of agents.
    pub open spec fn n_spec(self) -> int {
        self@.len() as int
    }

    /// Build a cost function from a full rate matrix.  Fails with `EmptyList`
    /// on no rows and `WrongColumns` on a row of the wrong width.
    pub fn new(kind: ActionKind, rates: Vec<Vec<Fx>>) -> (r: Result<FixedCost, ValidationError>)
        ensures
            r matches Ok(c) ==> c.wf() && c.kind == kind && c@ == fx_mat(rates@),
            r is Ok <==> (rates@.len() >= 1 && forall|i: int|
                0 <= i < rates@.len() ==> (#[trigger] rates@[i])@.len() == kind.k_spec()),
    {
        if rates.len() == 0 {
            return Err(ValidationError::EmptyList);
        }
        let k = kind.k();
        let len = rates.len();
        for i in 0..len
            invariant
                len == rates@.len(),
                k as int == kind.k_spec(),
                forall|p: int| 0 <= p < i ==> (#[trigger] rates@[p])@.len() == k as int,
        {
            if rates[i].len() != k {
                return Err(ValidationError::WrongColumns);
            }
        }
        let c = FixedCost { kind, rates };
        proof {
            assert forall|i: int| 0 <= i < c@.len() implies (#[trigger] c@[i]).len()
                == c.kind.k_spec() by {
                assert(c@[i] == fx_row(c.rates@[i]@));
            }
        }
        Ok(c)
    }

    /// Build a cost function charging the same rate row to each of `n`
    /// agents.  Fails with `EmptyList` when `n` is zero and `WrongColumns`
    /// when the row is not as wide as the action kind.
    pub fn from_params(kind: ActionKind, n: usize, params: Vec<Fx>) -> (r: Result<
        FixedCost,
        ValidationError,
    >)
        ensures
            r matches Ok(c) ==> c.wf() && c.kind == kind && c.n_spec() == n as int && (forall|
                i: int,
                j: int,
            |
                0 <= i < n as int && 0 <= j < kind.k_spec() ==> #[trigger] c@[i][j] == fx_row(
                    params@,
                )[j]),
            r is Ok <==> (n >= 1 && params@.len() == kind.k_spec()),
    {
        if n == 0 {
            return Err(ValidationError::EmptyList);
        }
        if params.len() != kind.k() {
            return Err(ValidationError::WrongColumns);
        }
        let mut rates: Vec<Vec<Fx>> = Vec::new();
        for i in 0..n
            invariant
                rates@.len() == i,
                forall|p: int| 0 <= p < i ==> (#[trigger] rates@[p])@ == params@,
        {
            rates.push(clone_row(&params));
        }
        let c = FixedCost { kind, rates };
        proof {
            assert forall|i: int, j: int|
                0 <= i < n as int && 0 <= j < kind.k_spec() implies #[trigger] c@[i][j] == fx_row(
                params@,
            )[j] by {
                assert(c@[i] == fx_row(c.rates@[i]@));
            }
            assert forall|i: int| 0 <= i < c@.len() implies (#[trigger] c@[i]).len()
                == c.kind.k_spec() by {
                assert(c@[i] == fx_row(c.rates@[i]@));
            }
        }
        Ok(c)
    }

    /// The number of agents.
    pub fn n(&self) -> (r: usize)
        ensures
            r as int == self.n_spec(),
    {
        self.rates.len()
    }

    /// Agent `i`'s cost for one period's actions.
    pub fn c_i(&self, i: usize, actions: &Actions) -> (r: Fx)
        requires
            self.wf(),
            actions.wf(),
            actions.kind == self.kind,
            (i as int) < self.n_spec(),
            (i as int) < actions.n_spec(),
        ensures
            r.v as int == cost_model(self@, actions@.m, i as int, self.kind.k_spec() as nat),
    {
        let k = self.kind.k();
        let mut acc = Fx::zero();
        let ghost rrow = self@[i as int];
        let ghost arow = actions@.m[i as int];
        proof {
            assert(rrow == fx_row(self.rates@[i as int]@));
            assert(arow == fx_row(actions.rows@[i as int]@));
        }
        for j in 0..k
            invariant
                k as int == self.kind.k_spec(),
                self.wf(),
                actions.wf(),
                actions.kind == self.kind,
                (i as int) < self.n_spec(),
                (i as int) < actions.n_spec(),
                rrow == self@[i as int],
                arow == actions@.m[i as int],
                rrow == fx_row(self.rates@[i as int]@),
                arow == fx_row(actions.rows@[i as int]@),
                acc.v as int == dot_model(rrow, arow, j as nat),
        {
            acc = acc.add(self.rates[i][j].mul(actions.rows[i][j]));
        }
        acc
    }

    /// Every agent's cost for one period's actions.
    pub fn c(&self, actions: &Actions) -> (r: Vec<Fx>)
        requires
            self.wf(),
            actions.wf(),
            actions.kind == self.kind,
            actions.n_spec() == self.n_spec(),
        ensures
            r@.len() == self.n_spec(),
            forall|i: int|
                0 <= i < r@.len() ==> (#[trigger] r@[i]).v as int == cost_model(
                    self@,
                    actions@.m,
                    i,
                    self.kind.k_spec() as nat,
                ),
    {
        let n = self.rates.len();
        let mut r: Vec<Fx> = Vec::new();
        for i in 0..n
            invariant
                n as int == self.n_spec(),
                self.wf(),
                actions.wf(),
                actions.kind == self.kind,
                actions.n_spec() == self.n_spec(),
                r@.len() == i,
                forall|q: int|
                    0 <= q < i ==> (#[trigger] r@[q]).v as int == cost_model(
                        self@,
                        actions@.m,
                        q,
                        self.kind.k_spec() as nat,
                    ),
        {
            r.push(self.c_i(i, actions));
        }
        r
    }
}

impl Clone for FixedCost {
    /// Cloning keeps the kind and the rate matrix.
    fn clone(&self) -> (r: Self)
        ensures
            r@ == self@,
            r.kind == self.kind,
    {
        let mut rates: Vec<Vec<Fx>> = Vec::new();
        let len = self.rates.len();
        for i in 0..len
            invariant
                len == self.rates@.len(),
                rates@.len() == i,
                forall|p: int| 0 <= p < i ==> (#[trigger] rates@[p])@ == self.rates@[p]@,
        {
            rates.push(clone_row(&self.rates[i]));
        }
        let r = FixedCost { kind: self.kind, rates };
        proof {
            assert(r@ =~= self@);
        }
        r
    }
}

} // verus!
