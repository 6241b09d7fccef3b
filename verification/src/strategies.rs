//! Actions and strategies.
//!
//! An [`Actions`] value is one period's joint decision: an `n x k` matrix of
//! non-negative fixed-point numbers, one row per agent.  The column count `k`
//! is fixed by the action kind: plain effort (2 columns), effort plus
//! investment (4), or effort, investment and sharing (6).  A [`Strategies`]
//! value is a time-ordered sequence of such matrices, all of the same shape.

use vstd::prelude::*;
use crate::fx::Fx;
use crate::errors::ValidationError;

verus! {

/// Which mutation rule and column count a period's action matrix carries.
#[derive(Clone, Copy, PartialEq, Eq, Structural, Debug)]
pub enum ActionKind {
    /// Two columns: safety effort `xs`, performance effort `xp`.
    Basic,
    /// Four columns: `xs`, `xp`, safety investment, performance investment.
    Invest,
    /// Six columns: as `Invest`, plus safety and performance sharing rates.
    Sharing,
}

impl ActionKind {
    /// The number of columns of an action matrix of this kind.
    pub open spec fn k_spec(self) -> int {
        match self {
            ActionKind::Basic => 2,
            ActionKind::Invest => 4,
            ActionKind::Sharing => 6,
        }
    }

    /// The number of columns of an action matrix of this kind.
    pub fn k(self) -> (r: usize)
        ensures
            r as int == self.k_spec(),
    {
        match self {
            ActionKind::Basic => 2,
            ActionKind::Invest => 4,
            ActionKind::Sharing => 6,
        }
    }
}

/// The raw integer values of a row of fixed-point numbers.
pub open spec fn fx_row(r: Seq<Fx>) -> Seq<int> {
    r.map_values(|x: Fx| x.v as int)
}

/// The raw integer values of a matrix of fixed-point numbers.
pub open spec fn fx_mat(m: Seq<Vec<Fx>>) -> Seq<Seq<int>> {
    m.map_values(|r: Vec<Fx>| fx_row(r@))
}

/// Whether `m` is an `n x k` matrix (some `n >= 1`) of non-negative entries.
pub open spec fn mat_wf(m: Seq<Seq<int>>, k: int) -> bool {
    &&& m.len() >= 1
    &&& forall|i: int| 0 <= i < m.len() ==> (#[trigger] m[i]).len() == k
    &&& forall|i: int, j: int| 0 <= i < m.len() && 0 <= j < k ==> #[trigger] m[i][j] >= 0
}

/// One period's joint decision: one row of `kind.k()` non-negative
/// fixed-point parameters per agent.
#[derive(Debug)]
pub struct Actions {
    pub kind: ActionKind,
    pub rows: Vec<Vec<Fx>>,
}

/// The mathematical content of an [`Actions`] value: its kind and its matrix
/// of raw integer values.
#[verifier::ext_equal]
pub struct ActionsV {
    pub kind: ActionKind,
    pub m: Seq<Seq<int>>,
}

impl View for Actions {
    type V = ActionsV;

    open spec fn view(&self) -> ActionsV {
        ActionsV { kind: self.kind, m: fx_mat(self.rows@) }
    }
}

impl Actions {
    /// The shape and sign invariant: at least one agent, every row of the
    /// kind's width, every entry non-negative.
    pub open spec fn wf(self) -> bool {
        mat_wf(self@.m, self.kind.k_spec())
    }

    /// The number of agents.
    pub open spec fn n_spec(self) -> int {
        self@.m.len() as int
    }

    /// Build an action matrix, checking the shape and sign invariant.
    /// Fails with `EmptyList` on no rows, `WrongColumns` on a row of the
    /// wrong width, and `NegativeEntry` on a negative entry, in that order.
    pub fn from_data(kind: ActionKind, rows: Vec<Vec<Fx>>) -> (r: Result<Actions, ValidationError>)
        ensures
            r matches Ok(a) ==> a.wf() && a.kind == kind && a@.m == fx_mat(rows@),
            rows@.len() == 0 <==> r == Err::<Actions, ValidationError>(ValidationError::EmptyList),
            r is Ok <==> mat_wf(fx_mat(rows@), kind.k_spec()),
    {
        if rows.len() == 0 {
            return Err(ValidationError::EmptyList);
        }
        let k = kind.k();
        let ghost m = fx_mat(rows@);
        let mut i: usize = 0;
        while i < rows.len()
            invariant
                i <= rows@.len(),
                k as int == kind.k_spec(),
                m == fx_mat(rows@),
                forall|p: int| 0 <= p < i ==> (#[trigger] m[p]).len() == k as int,
                forall|p: int, q: int| 0 <= p < i && 0 <= q < k as int ==> #[trigger] m[p][q] >= 0,
            decreases rows@.len() - i,
        {
            if rows[i].len() != k {
                proof {
                    assert(m[i as int] == fx_row(rows@[i as int]@));
                    assert(m[i as int].len() != kind.k_spec());
                }
                return Err(ValidationError::WrongColumns);
            }
            let row = &rows[i];
            let mut j: usize = 0;
            while j < k
                invariant
                    j <= k,
                    row == &rows@[i as int],
                    i < rows@.len(),
                    row@.len() == k,
                    m == fx_mat(rows@),
                    forall|q: int| 0 <= q < j ==> #[trigger] m[i as int][q] >= 0,
                decreases k - j,
            {
                if row[j].v < 0 {
                    proof {
                        assert(m[i as int] == fx_row(rows@[i as int]@));
                        assert(m[i as int][j as int] == rows@[i as int]@[j as int].v as int);
                        assert(!mat_wf(m, kind.k_spec()));
                    }
                    return Err(ValidationError::NegativeEntry);
                }
                j = j + 1;
            }
            i = i + 1;
        }
        Ok(Actions { kind, rows })
    }

    /// The number of agents.
    pub fn n(&self) -> (r: usize)
        ensures
            r as int == self.n_spec(),
    {
        self.rows.len()
    }

    /// The safety-effort column (column 0).
    pub fn xs(&self) -> (r: Vec<Fx>)
        requires
            self.wf(),
        ensures
            r@.len() == self.n_spec(),
            forall|i: int| 0 <= i < r@.len() ==> (#[trigger] r@[i]).v as int == self@.m[i][0],
    {
        self.column(0)
    }

    /// The performance-effort column (column 1).
    pub fn xp(&self) -> (r: Vec<Fx>)
        requires
            self.wf(),
        ensures
            r@.len() == self.n_spec(),
            forall|i: int| 0 <= i < r@.len() ==> (#[trigger] r@[i]).v as int == self@.m[i][1],
    {
        self.column(1)
    }

    /// One column of the matrix, as a vector over agents.
    pub fn column(&self, j: usize) -> (r: Vec<Fx>)
        requires
            self.wf(),
            (j as int) < self.kind.k_spec(),
        ensures
            r@.len() == self.n_spec(),
            forall|i: int| 0 <= i < r@.len() ==> (#[trigger] r@[i]).v as int == self@.m[i][j as int],
    {
        let mut r: Vec<Fx> = Vec::new();
        let n = self.rows.len();
        for i in 0..n
            invariant
                n == self.rows@.len(),
                self.wf(),
                (j as int) < self.kind.k_spec(),
                r@.len() == i,
                forall|p: int| 0 <= p < i ==> (#[trigger] r@[p]).v as int == self@.m[p][j as int],
        {
            proof {
                assert(self@.m[i as int] == fx_row(self.rows@[i as int]@));
            }
            r.push(self.rows[i][j]);
        }
        r
    }
}

impl Clone for Actions {
    /// Cloning keeps the kind and the matrix.
    fn clone(&self) -> (r: Self)
        ensures
            r@ == self@,
            r.kind == self.kind,
    {
        let mut rows: Vec<Vec<Fx>> = Vec::new();
        let n = self.rows.len();
        for i in 0..n
            invariant
                n == self.rows@.len(),
                rows@.len() == i,
                forall|p: int| 0 <= p < i ==> fx_row((#[trigger] rows@[p])@) == fx_row(
                    self.rows@[p]@,
                ),
        {
            let src = &self.rows[i];
            let mut row: Vec<Fx> = Vec::new();
            let k = src.len();
            for j in 0..k
                invariant
                    k == src@.len(),
                    row@.len() == j,
                    forall|q: int| 0 <= q < j ==> (#[trigger] row@[q]).v == src@[q].v,
            {
                row.push(src[j]);
            }
            proof {
                assert(fx_row(row@) =~= fx_row(src@));
            }
            rows.push(row);
        }
        proof {
            assert(fx_mat(rows@) =~= fx_mat(self.rows@));
        }
        Actions { kind: self.kind, rows }
    }
}

/// A full strategy profile: one action matrix per period, all of the same
/// kind and agent count.
#[derive(Debug)]
pub struct Strategies {
    pub acts: Vec<Actions>,
}

impl View for Strategies {
    type V = Seq<ActionsV>;

    open spec fn view(&self) -> Seq<ActionsV> {
        self.acts@.map_values(|a: Actions| a@)
    }
}

impl Strategies {
    /// The shape invariant: at least one period, every period well formed, of
    /// one shared kind and agent count.
    pub open spec fn wf(self) -> bool {
        &&& self.acts@.len() >= 1
        &&& forall|t: int| 0 <= t < self.acts@.len() ==> (#[trigger] self.acts@[t]).wf()
        &&& forall|t: int| 0 <= t < self.acts@.len() ==> (#[trigger] self.acts@[t]).kind
            == self.acts@[0].kind
        &&& forall|t: int| 0 <= t < self.acts@.len() ==> (#[trigger] self.acts@[t]).n_spec()
            == self.acts@[0].n_spec()
    }

    /// The number of periods.
    pub open spec fn t_spec(self) -> int {
        self.acts@.len() as int
    }

    /// The number of agents.
    pub open spec fn n_spec(self) -> int {
        self.acts@[0].n_spec()
    }

    /// The shared action kind.
    pub open spec fn kind_spec(self) -> ActionKind {
        self.acts@[0].kind
    }

    /// The number of periods.
    pub fn t(&self) -> (r: usize)
        ensures
            r as int == self.t_spec(),
    {
        self.acts.len()
    }

    /// The number of agents.
    pub fn n(&self) -> (r: usize)
        requires
            self.wf(),
        ensures
            r as int == self.n_spec(),
    {
        self.acts[0].n()
    }

    /// The shared action kind.
    pub fn kind(&self) -> (r: ActionKind)
        requires
            self.wf(),
        ensures
            r == self.kind_spec(),
    {
        self.acts[0].kind
    }

    /// The per-period action list, read-only.
    pub fn actions(&self) -> (r: &Vec<Actions>)
        ensures
            r == &self.acts,
    {
        &self.acts
    }

    /// The per-period action list, by value.
    pub fn into_actions(self) -> (r: Vec<Actions>)
        ensures
            r == self.acts,
    {
        self.acts
    }

    /// Build a strategy profile from per-period actions.  Fails with
    /// `EmptyList` on no periods and `DimensionMismatch` when the periods'
    /// kinds or agent counts disagree; reading the result back gives exactly
    /// the input list.
    pub fn from_actions(acts: Vec<Actions>) -> (r: Result<Strategies, ValidationError>)
        requires
            forall|t: int| 0 <= t < acts@.len() ==> (#[trigger] acts@[t]).wf(),
        ensures
            r matches Ok(s) ==> s.wf() && s.acts@ == acts@ && s@ == acts@.map_values(
                |a: Actions| a@,
            ),
            acts@.len() == 0 <==> r == Err::<Strategies, ValidationError>(
                ValidationError::EmptyList,
            ),
            r is Ok <==> (acts@.len() >= 1 && (forall|t: int|
                0 <= t < acts@.len() ==> (#[trigger] acts@[t]).kind == acts@[0].kind
                    && acts@[t].n_spec() == acts@[0].n_spec())),
    {
        if acts.len() == 0 {
            return Err(ValidationError::EmptyList);
        }
        let kind = acts[0].kind;
        let n = acts[0].n();
        let len = acts.len();
        for t in 0..len
            invariant
                len == acts@.len(),
                acts@.len() >= 1,
                kind == acts@[0].kind,
                n as int == acts@[0].n_spec(),
                forall|p: int| 0 <= p < t ==> (#[trigger] acts@[p]).kind == kind
                    && acts@[p].n_spec() == n as int,
        {
            let same_kind = match (acts[t].kind, kind) {
                (ActionKind::Basic, ActionKind::Basic) => true,
                (ActionKind::Invest, ActionKind::Invest) => true,
                (ActionKind::Sharing, ActionKind::Sharing) => true,
                _ => false,
            };
            if !same_kind || acts[t].n() != n {
                return Err(ValidationError::DimensionMismatch);
            }
        }
        Ok(Strategies { acts })
    }
}

impl Strategies {
    /// A full copy of the underlying `t x n x k` tensor of raw fixed-point
    /// values, period-major.
    pub fn data(&self) -> (r: Vec<Vec<Vec<Fx>>>)
        requires
            self.wf(),
        ensures
            r@.len() == self.t_spec(),
            forall|t: int|
                0 <= t < r@.len() ==> fx_mat((#[trigger] r@[t])@) == self@[t].m,
    {
        let len = self.acts.len();
        let mut r: Vec<Vec<Vec<Fx>>> = Vec::new();
        for t in 0..len
            invariant
                len == self.acts@.len(),
                self.wf(),
                r@.len() == t,
                forall|p: int| 0 <= p < t ==> fx_mat((#[trigger] r@[p])@) == self@[p].m,
        {
            let src = &self.acts[t];
            let n = src.rows.len();
            let mut mat: Vec<Vec<Fx>> = Vec::new();
            for q in 0..n
                invariant
                    n == src.rows@.len(),
                    src == &self.acts@[t as int],
                    mat@.len() == q,
                    forall|p: int| 0 <= p < q ==> (#[trigger] mat@[p])@ == src.rows@[p]@,
            {
                mat.push(crate::utils::clone_row(&src.rows[q]));
            }
            proof {
                assert(fx_mat(mat@) =~= fx_mat(src.rows@));
            }
            r.push(mat);
        }
        r
    }

    /// Replace agent `i`'s whole time series: row `i` of every period's
    /// matrix becomes the corresponding row of `x` (one row of `k`
    /// non-negative entries per period).  Nothing else changes.
    pub fn set_i(&mut self, i: usize, x: &Vec<Vec<Fx>>)
        requires
            old(self).wf(),
            (i as int) < old(self).n_spec(),
            x@.len() == old(self).t_spec(),
            forall|t: int|
                0 <= t < x@.len() ==> (#[trigger] x@[t])@.len() == old(self).kind_spec().k_spec(),
            forall|t: int, j: int|
                0 <= t < x@.len() && 0 <= j < old(self).kind_spec().k_spec() ==> (#[trigger] x@[t]@[j]).v >= 0,
        ensures
            final(self).wf(),
            final(self).t_spec() == old(self).t_spec(),
            final(self).n_spec() == old(self).n_spec(),
            final(self).kind_spec() == old(self).kind_spec(),
            forall|t: int|
                0 <= t < old(self).t_spec() ==> (#[trigger] final(self)@[t]).m == old(self)@[t].m.update(
                    i as int,
                    fx_row(x@[t]@),
                ) && final(self)@[t].kind == old(self)@[t].kind,
    {
        let len = self.acts.len();
        let mut acts: Vec<Actions> = Vec::new();
        for t in 0..len
            invariant
                len == self.acts@.len(),
                *self == *old(self),
                self.wf(),
                (i as int) < self.n_spec(),
                x@.len() == self.t_spec(),
                forall|p: int|
                    0 <= p < x@.len() ==> (#[trigger] x@[p])@.len() == self.kind_spec().k_spec(),
                forall|p: int, j: int|
                    0 <= p < x@.len() && 0 <= j < self.kind_spec().k_spec() ==> (#[trigger] x@[p]@[j]).v >= 0,
                acts@.len() == t,
                forall|p: int|
                    0 <= p < t ==> (#[trigger] acts@[p])@.m == self@[p].m.update(
                        i as int,
                        fx_row(x@[p]@),
                    ) && acts@[p].kind == self@[p].kind && acts@[p].wf(),
        {
            let src = &self.acts[t];
            let n = src.rows.len();
            let mut rows: Vec<Vec<Fx>> = Vec::new();
            for p in 0..n
                invariant
                    n == src.rows@.len(),
                    src == &self.acts@[t as int],
                    self.wf(),
                    (t as int) < self.t_spec(),
                    (i as int) < n,
                    x@.len() == self.t_spec(),
                    x@[t as int]@.len() == self.kind_spec().k_spec(),
                    rows@.len() == p,
                    forall|q: int|
                        0 <= q < p && q != i as int ==> (#[trigger] rows@[q])@ == src.rows@[q]@,
                    forall|q: int| 0 <= q < p && q == i as int ==> (#[trigger] rows@[q])@ == x@[t as int]@,
            {
                if p == i {
                    rows.push(crate::utils::clone_row(&x[t]));
                } else {
                    rows.push(crate::utils::clone_row(&src.rows[p]));
                }
            }
            let na = Actions { kind: src.kind, rows };
            proof {
                assert(na@.m =~= self@[t as int].m.update(i as int, fx_row(x@[t as int]@)));
                assert(self@[t as int].m == fx_mat(self.acts@[t as int].rows@));
                assert forall|q: int, j: int|
                    0 <= q < na@.m.len() && 0 <= j < na.kind.k_spec() implies #[trigger] na@.m[q][j]
                    >= 0 by {
                    if q == i as int {
                        assert(na@.m[q] == fx_row(x@[t as int]@));
                    } else {
                        assert(na@.m[q] == self@[t as int].m[q]);
                        assert(self.acts@[t as int].wf());
                    }
                }
                assert forall|q: int| 0 <= q < na@.m.len() implies (#[trigger] na@.m[q]).len()
                    == na.kind.k_spec() by {
                    if q == i as int {
                        assert(na@.m[q] == fx_row(x@[t as int]@));
                    } else {
                        assert(na@.m[q] == self@[t as int].m[q]);
                        assert(self.acts@[t as int].wf());
                    }
                }
            }
            acts.push(na);
        }
        self.acts = acts;
    }
}

impl Clone for Strategies {
    /// Cloning keeps every period's kind and matrix, and a well-formed
    /// profile stays well formed.
    fn clone(&self) -> (r: Self)
        ensures
            r@ == self@,
            self.wf() ==> r.wf(),
            r.acts@.len() == self.acts@.len(),
            forall|t: int|
                0 <= t < self.acts@.len() ==> (#[trigger] r.acts@[t]).kind == self.acts@[t].kind
                    && r.acts@[t]@ == self.acts@[t]@,
    {
        let mut acts: Vec<Actions> = Vec::new();
        let len = self.acts.len();
        for t in 0..len
            invariant
                len == self.acts@.len(),
                acts@.len() == t,
                forall|p: int| 0 <= p < t ==> (#[trigger] acts@[p])@ == self.acts@[p]@,
                forall|p: int| 0 <= p < t ==> (#[trigger] acts@[p]).kind == self.acts@[p].kind,
        {
            acts.push(self.acts[t].clone());
        }
        proof {
            assert(acts@.map_values(|a: Actions| a@) =~= self.acts@.map_values(|a: Actions| a@));
        }
        Strategies { acts }
    }
}

} // verus!
