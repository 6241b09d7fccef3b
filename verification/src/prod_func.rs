//! The production function: effort in, (safety signal, performance signal)
//! out.
//!
//! `DefaultProd` maps agent `i`'s efforts to `a_i * xs_i^alpha_i` and
//! `b_i * xp_i^beta_i`.  The scale coefficients `a` and `b` may grow over
//! time: investment actions add to them directly, and sharing actions
//! additionally redirect a saturating fraction of other agents' lead to the
//! sharing agent.

use vstd::prelude::*;
use vstd::math::min;
use crate::fx::{Fx, SCALE, add_model, sub_model, mul_model};
use crate::fxpow::{pow_model, lemma_pow_model_nonneg};
use crate::fx::lemma_mul_model_nonneg;
use crate::strategies::{Actions, ActionKind, fx_row};
use crate::errors::ValidationError;
use crate::utils::{pb_model, max0, clone_row};

verus! {

/// The mathematical content of a production function: the four per-agent
/// coefficient vectors, as raw fixed-point values.
#[verifier::ext_equal]
pub struct ProdV {
    pub a: Seq<int>,
    pub alpha: Seq<int>,
    pub b: Seq<int>,
    pub beta: Seq<int>,
}

/// Per-agent power production: safety `a_i * xs_i^alpha_i`, performance
/// `b_i * xp_i^beta_i`, with mutable growth of `a` and `b`.
#[derive(Debug)]
pub struct DefaultProd {
    pub a: Vec<Fx>,
    pub alpha: Vec<Fx>,
    pub b: Vec<Fx>,
    pub beta: Vec<Fx>,
}

impl View for DefaultProd {
    type V = ProdV;

    open spec fn view(&self) -> ProdV {
        ProdV {
            a: fx_row(self.a@),
            alpha: fx_row(self.alpha@),
            b: fx_row(self.b@),
            beta: fx_row(self.beta@),
        }
    }
}

/// The safety signal of agent `i`: `a_i * xs_i^alpha_i`.
pub open spec fn f_s_model(p: ProdV, m: Seq<Seq<int>>, i: int) -> int {
    mul_model(p.a[i], pow_model(m[i][0], p.alpha[i]))
}

/// The performance signal of agent `i`: `b_i * xp_i^beta_i`.
pub open spec fn f_p_model(p: ProdV, m: Seq<Seq<int>>, i: int) -> int {
    mul_model(p.b[i], pow_model(m[i][1], p.beta[i]))
}

/// Add column `c` of the action matrix to the coefficient vector `v`,
/// entry by entry (entries past the action matrix stay unchanged).
pub open spec fn invest_row(v: Seq<int>, m: Seq<Seq<int>>, c: int) -> Seq<int> {
    Seq::new(v.len(), |i: int| if i < m.len() { add_model(v[i], m[i][c]) } else { v[i] })
}

/// What agent `i` gains from the first `j` agents' sharing: the sum of
/// `max(0, bound(share_j) * (v_j - v_i))` over those agents.
pub open spec fn share_sum(v: Seq<int>, m: Seq<Seq<int>>, c: int, i: int, j: nat) -> int
    decreases j,
{
    if j == 0 {
        0
    } else {
        add_model(
            share_sum(v, m, c, i, (j - 1) as nat),
            max0(mul_model(pb_model(m[j - 1][c]), sub_model(v[j - 1], v[i]))),
        )
    }
}

/// One sharing-mutation step on a coefficient vector: each agent gains its
/// own investment (column `cinv`) plus the shared fraction of every agent's
/// lead (sharing rates in column `cshare`).
pub open spec fn share_row(v: Seq<int>, m: Seq<Seq<int>>, cinv: int, cshare: int) -> Seq<int> {
    Seq::new(
        v.len(),
        |i: int|
            if i < m.len() {
                add_model(
                    v[i],
                    add_model(m[i][cinv], share_sum(v, m, cshare, i, min(v.len() as int, m.len() as int) as nat)),
                )
            } else {
                v[i]
            },
    )
}

/// The production coefficients after one period of the given actions: basic
/// actions change nothing, investment adds columns 2 and 3 to `a` and `b`,
/// sharing additionally redistributes leads through columns 4 and 5.
pub open spec fn prod_mutated(p: ProdV, kind: ActionKind, m: Seq<Seq<int>>) -> ProdV {
    match kind {
        ActionKind::Basic => p,
        ActionKind::Invest => ProdV {
            a: invest_row(p.a, m, 2),
            b: invest_row(p.b, m, 3),
            ..p
        },
        ActionKind::Sharing => ProdV {
            a: share_row(p.a, m, 2, 4),
            b: share_row(p.b, m, 3, 5),
            ..p
        },
    }
}

impl DefaultProd {
    /// The shape and sign invariant: all four vectors of one length, at least
    /// one agent, scale coefficients non-negative.
    pub open spec fn wf(self) -> bool {
        &&& self@.a.len() >= 1
        &&& self@.alpha.len() == self@.a.len()
        &&& self@.b.len() == self@.a.len()
        &&& self@.beta.len() == self@.a.len()
        &&& forall|i: int| 0 <= i < self@.a.len() ==> #[trigger] self@.a[i] >= 0
        &&& forall|i: int| 0 <= i < self@.b.len() ==> #[trigger] self@.b[i] >= 0
    }

    /// The number of agents.
    pub open spec fn n_spec(self) -> int {
        self@.a.len() as int
    }

    /// Build a production function.  Fails with `EmptyList` when no agent is
    /// described, `DimensionMismatch` when the vectors' lengths disagree, and
    /// `NegativeEntry` when a scale coefficient is negative, in that order.
    pub fn new(a: Vec<Fx>, alpha: Vec<Fx>, b: Vec<Fx>, beta: Vec<Fx>) -> (r: Result<
        DefaultProd,
        ValidationError,
    >)
        ensures
            r matches Ok(p) ==> p.wf() && p@ == (ProdV {
                a: fx_row(a@),
                alpha: fx_row(alpha@),
                b: fx_row(b@),
                beta: fx_row(beta@),
            }),
            r is Ok <==> (a@.len() >= 1 && alpha@.len() == a@.len() && b@.len() == a@.len()
                && beta@.len() == a@.len() && (forall|i: int|
                0 <= i < a@.len() ==> (#[trigger] a@[i]).v >= 0) && (forall|i: int|
                0 <= i < b@.len() ==> (#[trigger] b@[i]).v >= 0)),
    {
        if a.len() == 0 {
            return Err(ValidationError::EmptyList);
        }
        if alpha.len() != a.len() || b.len() != a.len() || beta.len() != a.len() {
            return Err(ValidationError::DimensionMismatch);
        }
        let n = a.len();
        for i in 0..n
            invariant
                n == a@.len(),
                b@.len() == n,
                forall|p: int| 0 <= p < i ==> (#[trigger] a@[p]).v >= 0,
                forall|p: int| 0 <= p < i ==> (#[trigger] b@[p]).v >= 0,
        {
            if a[i].v < 0 || b[i].v < 0 {
                return Err(ValidationError::NegativeEntry);
            }
        }
        let p = DefaultProd { a, alpha, b, beta };
        proof {
            assert forall|i: int| 0 <= i < p@.a.len() implies #[trigger] p@.a[i] >= 0 by {
                assert(p@.a[i] == p.a@[i].v as int);
            }
            assert forall|i: int| 0 <= i < p@.b.len() implies #[trigger] p@.b[i] >= 0 by {
                assert(p@.b[i] == p.b@[i].v as int);
            }
        }
        Ok(p)
    }

    /// The number of agents.
    pub fn n(&self) -> (r: usize)
        ensures
            r as int == self.n_spec(),
    {
        self.a.len()
    }

    /// Agent `i`'s (safety, performance) signals for one period's actions.
    /// Both are non-negative.
    pub fn f_i(&self, i: usize, actions: &Actions) -> (r: (Fx, Fx))
        requires
            self.wf(),
            actions.wf(),
            (i as int) < self.n_spec(),
            (i as int) < actions.n_spec(),
        ensures
            r.0.v as int == f_s_model(self@, actions@.m, i as int),
            r.1.v as int == f_p_model(self@, actions@.m, i as int),
            r.0.v >= 0,
            r.1.v >= 0,
    {
        proof {
            assert(actions@.m[i as int] == fx_row(actions.rows@[i as int]@));
            lemma_pow_model_nonneg(actions@.m[i as int][0], self@.alpha[i as int]);
            lemma_pow_model_nonneg(actions@.m[i as int][1], self@.beta[i as int]);
            lemma_mul_model_nonneg(
                self@.a[i as int],
                pow_model(actions@.m[i as int][0], self@.alpha[i as int]),
            );
            lemma_mul_model_nonneg(
                self@.b[i as int],
                pow_model(actions@.m[i as int][1], self@.beta[i as int]),
            );
        }
        let s = self.a[i].mul(self.rows_xs(i, actions).pow(self.alpha[i]));
        let p = self.b[i].mul(self.rows_xp(i, actions).pow(self.beta[i]));
        (s, p)
    }

    /// Agent `i`'s safety effort, read from the action matrix.
    fn rows_xs(&self, i: usize, actions: &Actions) -> (r: Fx)
        requires
            actions.wf(),
            (i as int) < actions.n_spec(),
        ensures
            r.v as int == actions@.m[i as int][0],
    {
        proof {
            assert(actions@.m[i as int] == fx_row(actions.rows@[i as int]@));
        }
        actions.rows[i][0]
    }

    /// Agent `i`'s performance effort, read from the action matrix.
    fn rows_xp(&self, i: usize, actions: &Actions) -> (r: Fx)
        requires
            actions.wf(),
            (i as int) < actions.n_spec(),
        ensures
            r.v as int == actions@.m[i as int][1],
    {
        proof {
            assert(actions@.m[i as int] == fx_row(actions.rows@[i as int]@));
        }
        actions.rows[i][1]
    }

    /// Both signal vectors for one period's actions.
    pub fn f(&self, actions: &Actions) -> (r: (Vec<Fx>, Vec<Fx>))
        requires
            self.wf(),
            actions.wf(),
            actions.n_spec() == self.n_spec(),
        ensures
            r.0@.len() == self.n_spec(),
            r.1@.len() == self.n_spec(),
            forall|i: int|
                0 <= i < self.n_spec() ==> (#[trigger] r.0@[i]).v as int == f_s_model(
                    self@,
                    actions@.m,
                    i,
                ) && r.0@[i].v >= 0,
            forall|i: int|
                0 <= i < self.n_spec() ==> (#[trigger] r.1@[i]).v as int == f_p_model(
                    self@,
                    actions@.m,
                    i,
                ) && r.1@[i].v >= 0,
    {
        let n = self.a.len();
        let mut s: Vec<Fx> = Vec::new();
        let mut p: Vec<Fx> = Vec::new();
        for i in 0..n
            invariant
                n as int == self.n_spec(),
                self.wf(),
                actions.wf(),
                actions.n_spec() == self.n_spec(),
                s@.len() == i,
                p@.len() == i,
                forall|q: int|
                    0 <= q < i ==> (#[trigger] s@[q]).v as int == f_s_model(self@, actions@.m, q)
                        && s@[q].v >= 0,
                forall|q: int|
                    0 <= q < i ==> (#[trigger] p@[q]).v as int == f_p_model(self@, actions@.m, q)
                        && p@[q].v >= 0,
        {
            let (si, pi) = self.f_i(i, actions);
            s.push(si);
            p.push(pi);
        }
        (s, p)
    }

    /// Advance the growth state by one period of actions: investment adds to
    /// the scale coefficients, sharing also redistributes leads; basic
    /// actions change nothing.  The invariant is preserved.
    pub fn mutate_on(&mut self, actions: &Actions)
        requires
            old(self).wf(),
            actions.wf(),
        ensures
            final(self)@ == prod_mutated(old(self)@, actions.kind, actions@.m),
            final(self).wf(),
            final(self).n_spec() == old(self).n_spec(),
    {
        proof {
            assert forall|i: int| 0 <= i < self.a@.len() implies (#[trigger] self.a@[i]).v >= 0 by {
                assert(self@.a[i] == self.a@[i].v as int);
            }
            assert forall|i: int| 0 <= i < self.b@.len() implies (#[trigger] self.b@[i]).v >= 0 by {
                assert(self@.b[i] == self.b@[i].v as int);
            }
        }
        match actions.kind {
            ActionKind::Basic => {
                proof {
                    assert(final(self)@ =~= prod_mutated(old(self)@, actions.kind, actions@.m));
                }
            },
            ActionKind::Invest => {
                let na = add_column(&self.a, actions, 2);
                let nb = add_column(&self.b, actions, 3);
                self.a = na;
                self.b = nb;
                proof {
                    assert(self@.a =~= invest_row(old(self)@.a, actions@.m, 2));
                    assert(self@.b =~= invest_row(old(self)@.b, actions@.m, 3));
                    assert(self@ =~= prod_mutated(old(self)@, actions.kind, actions@.m));
                }
            },
            ActionKind::Sharing => {
                let na = share_column(&self.a, actions, 2, 4);
                let nb = share_column(&self.b, actions, 3, 5);
                self.a = na;
                self.b = nb;
                proof {
                    assert(self@.a =~= share_row(old(self)@.a, actions@.m, 2, 4));
                    assert(self@.b =~= share_row(old(self)@.b, actions@.m, 3, 5));
                    assert(self@ =~= prod_mutated(old(self)@, actions.kind, actions@.m));
                }
            },
        }
    }
}

impl Clone for DefaultProd {
    /// Cloning keeps all four coefficient vectors.
    fn clone(&self) -> (r: Self)
        ensures
            r@ == self@,
    {
        let r = DefaultProd {
            a: clone_row(&self.a),
            alpha: clone_row(&self.alpha),
            b: clone_row(&self.b),
            beta: clone_row(&self.beta),
        };
        proof {
            assert(r@ =~= self@);
        }
        r
    }
}

/// The coefficient vector `v` plus column `c` of the action matrix, entry by
/// entry; non-negative when `v` is non-negative and the column exists.
fn add_column(v: &Vec<Fx>, actions: &Actions, c: usize) -> (r: Vec<Fx>)
    requires
        actions.wf(),
        (c as int) < actions.kind.k_spec(),
        forall|i: int| 0 <= i < v@.len() ==> (#[trigger] v@[i]).v >= 0,
    ensures
        fx_row(r@) == invest_row(fx_row(v@), actions@.m, c as int),
        forall|i: int| 0 <= i < r@.len() ==> (#[trigger] r@[i]).v >= 0,
{
    let n = v.len();
    let an = actions.n();
    let mut r: Vec<Fx> = Vec::new();
    for i in 0..n
        invariant
            n == v@.len(),
            an as int == actions.n_spec(),
            actions.wf(),
            (c as int) < actions.kind.k_spec(),
            forall|p: int| 0 <= p < v@.len() ==> (#[trigger] v@[p]).v >= 0,
            r@.len() == i,
            forall|p: int|
                0 <= p < i ==> (#[trigger] r@[p]).v as int == invest_row(
                    fx_row(v@),
                    actions@.m,
                    c as int,
                )[p],
            forall|p: int| 0 <= p < i ==> (#[trigger] r@[p]).v >= 0,
    {
        if i < an {
            proof {
                assert(actions@.m[i as int] == fx_row(actions.rows@[i as int]@));
                assert(actions@.m[i as int][c as int] >= 0);
            }
            r.push(v[i].add(actions.rows[i][c]));
        } else {
            r.push(v[i]);
        }
    }
    proof {
        assert(fx_row(r@) =~= invest_row(fx_row(v@), actions@.m, c as int));
    }
    r
}

/// One sharing step on the coefficient vector `v`: own investment from
/// column `cinv` plus the saturating share of every agent's lead, rates from
/// column `cshare`.
fn share_column(v: &Vec<Fx>, actions: &Actions, cinv: usize, cshare: usize) -> (r: Vec<Fx>)
    requires
        actions.wf(),
        (cinv as int) < actions.kind.k_spec(),
        (cshare as int) < actions.kind.k_spec(),
        forall|i: int| 0 <= i < v@.len() ==> (#[trigger] v@[i]).v >= 0,
    ensures
        fx_row(r@) == share_row(fx_row(v@), actions@.m, cinv as int, cshare as int),
        forall|i: int| 0 <= i < r@.len() ==> (#[trigger] r@[i]).v >= 0,
{
    let ghost vv = fx_row(v@);
    let n = v.len();
    let an = actions.n();
    let m = if n <= an {
        n
    } else {
        an
    };
    let mut r: Vec<Fx> = Vec::new();
    for i in 0..n
        invariant
            n == v@.len(),
            an as int == actions.n_spec(),
            m as int == min(v@.len() as int, actions@.m.len() as int),
            vv == fx_row(v@),
            actions.wf(),
            (cinv as int) < actions.kind.k_spec(),
            (cshare as int) < actions.kind.k_spec(),
            forall|p: int| 0 <= p < v@.len() ==> (#[trigger] v@[p]).v >= 0,
            r@.len() == i,
            forall|p: int|
                0 <= p < i ==> (#[trigger] r@[p]).v as int == share_row(
                    vv,
                    actions@.m,
                    cinv as int,
                    cshare as int,
                )[p],
            forall|p: int| 0 <= p < i ==> (#[trigger] r@[p]).v >= 0,
    {
        if i < an {
            let mut acc = Fx::zero();
            for j in 0..m
                invariant
                    m as int == min(v@.len() as int, actions@.m.len() as int),
                    m <= n == v@.len(),
                    m <= an,
                    an as int == actions.n_spec(),
                    vv == fx_row(v@),
                    actions.wf(),
                    (cshare as int) < actions.kind.k_spec(),
                    i < n,
                    i < an,
                    acc.v as int == share_sum(vv, actions@.m, cshare as int, i as int, j as nat),
            {
                proof {
                    assert(actions@.m[j as int] == fx_row(actions.rows@[j as int]@));
                }
                let rate = crate::utils::positive_bound(actions.rows[j][cshare]);
                let lead = v[j].sub(v[i]);
                let term = rate.mul(lead);
                let term = if term.v < 0 {
                    Fx::zero()
                } else {
                    term
                };
                acc = acc.add(term);
            }
            proof {
                assert(actions@.m[i as int] == fx_row(actions.rows@[i as int]@));
                assert(actions@.m[i as int][cinv as int] >= 0);
            }
            let gain = actions.rows[i][cinv].add(acc);
            let nv = v[i].add(gain);
            proof {
                lemma_share_sum_nonneg(vv, actions@.m, cshare as int, i as int, m as nat);
            }
            r.push(nv);
        } else {
            r.push(v[i]);
        }
    }
    proof {
        assert(fx_row(r@) =~= share_row(vv, actions@.m, cinv as int, cshare as int));
    }
    r
}

/// The sharing gains are sums of non-negative terms.
proof fn lemma_share_sum_nonneg(v: Seq<int>, m: Seq<Seq<int>>, c: int, i: int, j: nat)
    ensures
        share_sum(v, m, c, i, j) >= 0,
    decreases j,
{
    if j > 0 {
        lemma_share_sum_nonneg(v, m, c, i, (j - 1) as nat);
    }
}

} // verus!
