//! Contest-success functions: performance signals in, per-agent win
//! probabilities out.
//!
//! `DefaultCSF` is the proportional rule `p_i / sum(p)` (a contest is always
//! decided when any performance is positive); `MaybeNoWinCSF` is the damped
//! rule `scale * p_i / (1 + scale * sum(p))`, which leaves positive
//! probability that nobody wins.  [`lemma_csf_q_valid`] proves that both are
//! valid allocation rules: every probability is non-negative and they sum to
//! at most one whenever the sums involved stay inside the fixed-point range
//! (for the damped rule, strictly below one: somebody may well not win).

use vstd::prelude::*;
use crate::fx::{
    Fx, SCALE, add_model, mul_model, div_model, tdiv, lemma_mul_model_nonneg,
    lemma_div_model_nonneg,
};
use crate::strategies::fx_row;
use vstd::arithmetic::div_mod::{
    lemma_div_is_ordered, lemma_div_by_multiple, lemma_div_pos_is_pos,
    lemma_fundamental_div_mod,
};
use vstd::arithmetic::mul::{
    lemma_mul_inequality, lemma_mul_is_distributive_add, lemma_mul_is_commutative,
    lemma_mul_nonnegative, lemma_mul_is_distributive_add_other_way,
    lemma_mul_is_distributive_sub_other_way,
};

verus! {

/// The sum of the first `j` entries, folded left with saturating adds.
pub open spec fn sum_model(p: Seq<int>, j: nat) -> int
    decreases j,
{
    if j == 0 {
        0
    } else {
        add_model(sum_model(p, (j - 1) as nat), p[j - 1])
    }
}

/// The exact (unsaturated) sum of the first `j` entries.
pub open spec fn exact_sum(p: Seq<int>, j: nat) -> int
    decreases j,
{
    if j == 0 {
        0
    } else {
        exact_sum(p, (j - 1) as nat) + p[j - 1]
    }
}

/// The proportional contest-success rule.
#[derive(Clone, Copy, PartialEq, Eq, Structural, Debug)]
pub struct DefaultCSF;

/// The damped contest-success rule, which may leave the contest undecided.
#[derive(Clone, Copy, PartialEq, Eq, Structural, Debug)]
pub struct MaybeNoWinCSF {
    pub scale: Fx,
}

impl MaybeNoWinCSF {
    /// A damped rule with the given damping scale.
    pub fn new(scale: Fx) -> (r: MaybeNoWinCSF)
        ensures
            r.scale == scale,
    {
        MaybeNoWinCSF { scale }
    }

    /// The damped rule with scale one.
    pub fn default() -> (r: MaybeNoWinCSF)
        ensures
            r.scale.v == SCALE,
    {
        MaybeNoWinCSF { scale: Fx::one() }
    }
}

/// A contest-success function: one of the two rules.
#[derive(Clone, Copy, PartialEq, Eq, Structural, Debug)]
pub enum CSF {
    Default(DefaultCSF),
    MaybeNoWin(MaybeNoWinCSF),
}

/// Agent `i`'s probability of winning the period, given the performance
/// vector `p` (raw fixed-point values).
pub open spec fn q_model(c: CSF, p: Seq<int>, i: int) -> int {
    let sp = sum_model(p, p.len());
    match c {
        CSF::Default(_) => if sp == 0 {
            0
        } else {
            div_model(p[i], sp)
        },
        CSF::MaybeNoWin(m) => div_model(
            mul_model(m.scale.v as int, p[i]),
            add_model(SCALE as int, mul_model(m.scale.v as int, sp)),
        ),
    }
}

/// The sum of the first `j` win probabilities, folded left with saturating
/// adds.
pub open spec fn qsum_model(c: CSF, p: Seq<int>, j: nat) -> int
    decreases j,
{
    if j == 0 {
        0
    } else {
        add_model(qsum_model(c, p, (j - 1) as nat), q_model(c, p, j - 1))
    }
}

impl CSF {
    /// Agent `i`'s probability of winning the period.
    pub fn q_i(&self, i: usize, p: &Vec<Fx>) -> (r: Fx)
        requires
            (i as int) < p@.len(),
        ensures
            r.v as int == q_model(*self, fx_row(p@), i as int),
    {
        let sp = sum_vec(p);
        proof {
            assert(fx_row(p@)[i as int] == p@[i as int].v as int);
        }
        match self {
            CSF::Default(_) => {
                if sp.v == 0 {
                    Fx::zero()
                } else {
                    p[i].div(sp)
                }
            },
            CSF::MaybeNoWin(m) => {
                m.scale.mul(p[i]).div(Fx::one().add(m.scale.mul(sp)))
            },
        }
    }

    /// The per-agent win probabilities.
    pub fn q(&self, p: &Vec<Fx>) -> (r: Vec<Fx>)
        ensures
            r@.len() == p@.len(),
            forall|i: int|
                0 <= i < r@.len() ==> (#[trigger] r@[i]).v as int == q_model(
                    *self,
                    fx_row(p@),
                    i,
                ),
    {
        let n = p.len();
        let mut r: Vec<Fx> = Vec::new();
        for i in 0..n
            invariant
                n == p@.len(),
                r@.len() == i,
                forall|q: int|
                    0 <= q < i ==> (#[trigger] r@[q]).v as int == q_model(*self, fx_row(p@), q),
        {
            r.push(self.q_i(i, p));
        }
        r
    }
}

/// The saturating sum of a vector of fixed-point numbers, folded left.
pub fn sum_vec(p: &Vec<Fx>) -> (r: Fx)
    ensures
        r.v as int == sum_model(fx_row(p@), p@.len() as nat),
{
    let n = p.len();
    let mut acc = Fx::zero();
    for i in 0..n
        invariant
            n == p@.len(),
            acc.v as int == sum_model(fx_row(p@), i as nat),
    {
        proof {
            assert(fx_row(p@)[i as int] == p@[i as int].v as int);
        }
        acc = acc.add(p[i]);
    }
    acc
}

/// Summing a vector whose entries are the win probabilities gives exactly the
/// folded probability sum.
pub proof fn lemma_sum_is_qsum(qv: Seq<int>, c: CSF, p: Seq<int>, j: nat)
    requires
        j <= qv.len(),
        forall|l: int| 0 <= l < j ==> #[trigger] qv[l] == q_model(c, p, l),
    ensures
        sum_model(qv, j) == qsum_model(c, p, j),
    decreases j,
{
    if j > 0 {
        lemma_sum_is_qsum(qv, c, p, (j - 1) as nat);
    }
}

/// For non-negative entries whose exact total fits, the saturating partial
/// sums equal the exact ones, stay non-negative and never exceed the total.
proof fn lemma_sum_exact(p: Seq<int>, j: nat)
    requires
        forall|i: int| 0 <= i < p.len() ==> #[trigger] p[i] >= 0,
        exact_sum(p, p.len()) <= i64::MAX as int,
        j <= p.len(),
    ensures
        sum_model(p, j) == exact_sum(p, j),
        0 <= exact_sum(p, j) <= exact_sum(p, p.len()),
    decreases p.len() - j,
{
    lemma_exact_sum_nonneg(p, j);
    if j < p.len() {
        lemma_sum_exact(p, (j + 1) as nat);
    }
    if j > 0 {
        lemma_exact_sum_nonneg(p, (j - 1) as nat);
        lemma_sum_exact_fwd(p, j);
    }
}

/// Forward direction: the saturating sum up to `j` equals the exact sum.
proof fn lemma_sum_exact_fwd(p: Seq<int>, j: nat)
    requires
        forall|i: int| 0 <= i < p.len() ==> #[trigger] p[i] >= 0,
        exact_sum(p, p.len()) <= i64::MAX as int,
        j <= p.len(),
    ensures
        sum_model(p, j) == exact_sum(p, j),
    decreases j,
{
    if j > 0 {
        lemma_sum_exact_fwd(p, (j - 1) as nat);
        lemma_exact_sum_nonneg(p, (j - 1) as nat);
        lemma_exact_sum_mono(p, j, p.len());
        lemma_exact_sum_nonneg(p, j);
    }
}

/// Exact partial sums of non-negative entries are non-negative.
proof fn lemma_exact_sum_nonneg(p: Seq<int>, j: nat)
    requires
        forall|i: int| 0 <= i < p.len() ==> #[trigger] p[i] >= 0,
        j <= p.len(),
    ensures
        exact_sum(p, j) >= 0,
    decreases j,
{
    if j > 0 {
        lemma_exact_sum_nonneg(p, (j - 1) as nat);
    }
}

/// Exact partial sums of non-negative entries grow with the index.
proof fn lemma_exact_sum_mono(p: Seq<int>, j1: nat, j2: nat)
    requires
        forall|i: int| 0 <= i < p.len() ==> #[trigger] p[i] >= 0,
        j1 <= j2 <= p.len(),
    ensures
        exact_sum(p, j1) <= exact_sum(p, j2),
    decreases j2 - j1,
{
    if j1 < j2 {
        lemma_exact_sum_mono(p, (j1 + 1) as nat, j2);
    }
}

/// Integer division distributes superadditively over addition:
/// `a/d + b/d <= (a+b)/d` for non-negative `a`, `b` and positive `d`.
proof fn lemma_div_superadd(a: int, b: int, d: int)
    requires
        a >= 0,
        b >= 0,
        d > 0,
    ensures
        a / d + b / d <= (a + b) / d,
{
    lemma_fundamental_div_mod(a, d);
    lemma_fundamental_div_mod(b, d);
    lemma_div_pos_is_pos(a, d);
    lemma_div_pos_is_pos(b, d);
    let q = a / d + b / d;
    assert(a + b >= d * q) by {
        lemma_mul_is_distributive_add(d, a / d, b / d);
    }
    lemma_div_is_ordered(d * q, a + b, d);
    lemma_div_by_multiple(q, d);
    lemma_mul_is_commutative(q, d);
}

/// A single proportional probability is in `[0, 1]`: `(x*SCALE)/t <= SCALE`
/// when `0 <= x <= t`.
proof fn lemma_ratio_le_one(x: int, t: int)
    requires
        0 <= x <= t,
        t > 0,
    ensures
        0 <= tdiv(x * (SCALE as int), t) <= SCALE as int,
{
    lemma_mul_inequality(x, t, SCALE as int);
    lemma_mul_nonnegative(x, SCALE as int);
    lemma_div_pos_is_pos(x * (SCALE as int), t);
    lemma_div_is_ordered(x * (SCALE as int), t * (SCALE as int), t);
    lemma_div_by_multiple(SCALE as int, t);
    lemma_mul_is_commutative(t, SCALE as int);
}

/// The sum of the scaled floors `sum_i (sc*p_i)/SCALE` over the first `j`
/// entries, exactly.
spec fn scaled_floor_sum(p: Seq<int>, sc: int, j: nat) -> int
    decreases j,
{
    if j == 0 {
        0
    } else {
        scaled_floor_sum(p, sc, (j - 1) as nat) + tdiv(sc * p[j - 1], SCALE as int)
    }
}

/// The scaled floors sum to at most the floor of the scaled exact sum.
proof fn lemma_scaled_floor_sum_le(p: Seq<int>, sc: int, j: nat)
    requires
        forall|i: int| 0 <= i < p.len() ==> #[trigger] p[i] >= 0,
        sc >= 0,
        j <= p.len(),
    ensures
        0 <= scaled_floor_sum(p, sc, j) <= tdiv(sc * exact_sum(p, j), SCALE as int),
    decreases j,
{
    lemma_exact_sum_nonneg(p, j);
    if j > 0 {
        lemma_scaled_floor_sum_le(p, sc, (j - 1) as nat);
        lemma_exact_sum_nonneg(p, (j - 1) as nat);
        lemma_mul_nonnegative(sc, exact_sum(p, (j - 1) as nat));
        lemma_mul_nonnegative(sc, p[j - 1]);
        lemma_div_pos_is_pos(sc * p[j - 1], SCALE as int);
        lemma_div_superadd(sc * exact_sum(p, (j - 1) as nat), sc * p[j - 1], SCALE as int);
        lemma_mul_is_distributive_add(sc, exact_sum(p, (j - 1) as nat), p[j - 1]);
    }
}

/// Both contest-success rules are valid allocation rules: on non-negative
/// performance vectors whose relevant sums stay inside the fixed-point
/// range, every win probability lies in `[0, 1]` and the probabilities sum
/// to at most 1.
pub proof fn lemma_csf_q_valid(c: CSF, p: Seq<int>)
    requires
        forall|i: int| 0 <= i < p.len() ==> #[trigger] p[i] >= 0,
        exact_sum(p, p.len()) <= i64::MAX as int,
        c matches CSF::MaybeNoWin(m) ==> m.scale.v >= 0 && m.scale.v * exact_sum(p, p.len()) <= (
        i64::MAX - SCALE) as int * (SCALE as int),
    ensures
        forall|i: int| 0 <= i < p.len() ==> 0 <= #[trigger] q_model(c, p, i) <= SCALE as int,
        0 <= qsum_model(c, p, p.len()) <= SCALE as int,
        c is MaybeNoWin ==> qsum_model(c, p, p.len()) < SCALE as int,
{
    let n = p.len();
    let total = exact_sum(p, n);
    lemma_sum_exact(p, n);
    match c {
        CSF::Default(_) => {
            assert forall|i: int| 0 <= i < n implies 0 <= #[trigger] q_model(c, p, i)
                <= SCALE as int by {
                if total != 0 {
                    lemma_p_le_total(p, i);
                    lemma_ratio_le_one(p[i], total);
                }
            }
            lemma_qsum_default(c, p, n);
            if total != 0 {
                lemma_mul_nonnegative(total, SCALE as int);
                lemma_div_is_ordered(exact_sum(p, n) * (SCALE as int), total * (SCALE as int), total);
                lemma_div_by_multiple(SCALE as int, total);
                lemma_mul_is_commutative(total, SCALE as int);
            }
        },
        CSF::MaybeNoWin(m) => {
            let sc = m.scale.v as int;
            let mm = mul_model(sc, total);
            lemma_mul_nonnegative(sc, total);
            lemma_div_pos_is_pos(sc * total, SCALE as int);
            assert(tdiv(sc * total, SCALE as int) <= (i64::MAX - SCALE) as int) by {
                lemma_div_is_ordered(
                    sc * total,
                    (i64::MAX - SCALE) as int * (SCALE as int),
                    SCALE as int,
                );
                lemma_div_by_multiple((i64::MAX - SCALE) as int, SCALE as int);
                lemma_mul_is_commutative((i64::MAX - SCALE) as int, SCALE as int);
            }
            let d = add_model(SCALE as int, mm);
            assert(d == SCALE as int + tdiv(sc * total, SCALE as int));
            assert forall|i: int| 0 <= i < n implies 0 <= #[trigger] q_model(c, p, i)
                <= SCALE as int by {
                lemma_p_le_total(p, i);
                lemma_mul_nonnegative(sc, p[i]);
                lemma_div_pos_is_pos(sc * p[i], SCALE as int);
                lemma_mul_inequality(p[i], total, sc);
                lemma_mul_is_commutative(sc, p[i]);
                lemma_mul_is_commutative(sc, total);
                lemma_div_is_ordered(sc * p[i], sc * total, SCALE as int);
                lemma_ratio_le_one(mul_model(sc, p[i]), d);
            }
            lemma_qsum_mnw(c, p, n);
            lemma_scaled_floor_sum_le(p, sc, n);
            let sfs = scaled_floor_sum(p, sc, n);
            lemma_mul_nonnegative(sfs, SCALE as int);
            assert(sfs * (SCALE as int) <= d * (SCALE as int)) by {
                lemma_mul_inequality(sfs, d, SCALE as int);
            }
            lemma_div_is_ordered(sfs * (SCALE as int), d * (SCALE as int), d);
            lemma_div_by_multiple(SCALE as int, d);
            lemma_mul_is_commutative(d, SCALE as int);
            lemma_div_pos_is_pos(sfs * (SCALE as int), d);
            // the damped rule stays strictly below one: the floors sum to at
            // most d - SCALE scaled shares of a denominator of d
            assert(sfs * (SCALE as int) < d * (SCALE as int)) by {
                lemma_exact_sum_nonneg(p, p.len());
                assert(sfs <= d - SCALE as int);
                lemma_mul_inequality(sfs, d - SCALE as int, SCALE as int);
                assert((d - SCALE as int) * (SCALE as int) == d * (SCALE as int) - (
                SCALE as int) * (SCALE as int)) by {
                    lemma_mul_is_distributive_sub_other_way(SCALE as int, d, SCALE as int);
                }
            }
            vstd::arithmetic::div_mod::lemma_multiply_divide_lt(
                sfs * (SCALE as int),
                d,
                SCALE as int,
            );
            assert(qsum_model(c, p, n) < SCALE as int);
        },
    }
}

/// Each entry is at most the exact total.
proof fn lemma_p_le_total(p: Seq<int>, i: int)
    requires
        forall|k: int| 0 <= k < p.len() ==> #[trigger] p[k] >= 0,
        0 <= i < p.len(),
    ensures
        p[i] <= exact_sum(p, p.len()),
    decreases p.len() - i,
{
    lemma_exact_sum_nonneg(p, i as nat);
    lemma_exact_sum_mono(p, (i + 1) as nat, p.len());
}

/// Partial proportional probability sums stay below the scaled partial
/// shares.
proof fn lemma_qsum_default(c: CSF, p: Seq<int>, j: nat)
    requires
        c is Default,
        forall|i: int| 0 <= i < p.len() ==> #[trigger] p[i] >= 0,
        exact_sum(p, p.len()) <= i64::MAX as int,
        j <= p.len(),
    ensures
        0 <= qsum_model(c, p, j),
        exact_sum(p, p.len()) != 0 ==> qsum_model(c, p, j) <= tdiv(
            exact_sum(p, j) * (SCALE as int),
            exact_sum(p, p.len()),
        ),
        exact_sum(p, p.len()) == 0 ==> qsum_model(c, p, j) == 0,
    decreases j,
{
    let total = exact_sum(p, p.len());
    lemma_sum_exact(p, p.len());
    lemma_exact_sum_nonneg(p, j);
    if j > 0 {
        lemma_qsum_default(c, p, (j - 1) as nat);
        lemma_exact_sum_nonneg(p, (j - 1) as nat);
        if total != 0 {
            lemma_p_le_total(p, j - 1);
            lemma_ratio_le_one(p[j - 1], total);
            lemma_mul_nonnegative(exact_sum(p, (j - 1) as nat), SCALE as int);
            lemma_div_pos_is_pos(exact_sum(p, (j - 1) as nat) * (SCALE as int), total);
            lemma_div_superadd(
                exact_sum(p, (j - 1) as nat) * (SCALE as int),
                p[j - 1] * (SCALE as int),
                total,
            );
            lemma_mul_is_distributive_add_other_way(
                SCALE as int,
                exact_sum(p, (j - 1) as nat),
                p[j - 1],
            );
            lemma_exact_sum_mono(p, j, p.len());
            lemma_ratio_le_one(exact_sum(p, j), total);
            lemma_ratio_le_one(exact_sum(p, (j - 1) as nat), total);
        }
    }
}

/// Partial damped probability sums stay below the scaled floor shares.
proof fn lemma_qsum_mnw(c: CSF, p: Seq<int>, j: nat)
    requires
        c matches CSF::MaybeNoWin(m) && m.scale.v >= 0 && m.scale.v * exact_sum(p, p.len()) <= (
        i64::MAX - SCALE) as int * (SCALE as int),
        forall|i: int| 0 <= i < p.len() ==> #[trigger] p[i] >= 0,
        exact_sum(p, p.len()) <= i64::MAX as int,
        j <= p.len(),
    ensures
        0 <= qsum_model(c, p, j) <= tdiv(
            scaled_floor_sum(p, c->MaybeNoWin_0.scale.v as int, j) * (SCALE as int),
            add_model(
                SCALE as int,
                mul_model(c->MaybeNoWin_0.scale.v as int, exact_sum(p, p.len())),
            ),
        ),
        qsum_model(c, p, j) <= SCALE as int,
    decreases j,
{
    let sc = c->MaybeNoWin_0.scale.v as int;
    let total = exact_sum(p, p.len());
    lemma_sum_exact(p, p.len());
    lemma_mul_nonnegative(sc, total);
    lemma_div_pos_is_pos(sc * total, SCALE as int);
    assert(tdiv(sc * total, SCALE as int) <= (i64::MAX - SCALE) as int) by {
        lemma_div_is_ordered(sc * total, (i64::MAX - SCALE) as int * (SCALE as int), SCALE as int);
        lemma_div_by_multiple((i64::MAX - SCALE) as int, SCALE as int);
        lemma_mul_is_commutative((i64::MAX - SCALE) as int, SCALE as int);
    }
    let d = add_model(SCALE as int, mul_model(sc, total));
    assert(d == SCALE as int + tdiv(sc * total, SCALE as int));
    lemma_scaled_floor_sum_le(p, sc, j);
    lemma_scaled_floor_sum_le(p, sc, p.len());
    assert(scaled_floor_sum(p, sc, p.len()) <= tdiv(sc * total, SCALE as int)) by {
        lemma_exact_sum_nonneg(p, p.len());
    }
    if j > 0 {
        lemma_qsum_mnw(c, p, (j - 1) as nat);
        // the new term
        lemma_p_le_total(p, j - 1);
        lemma_mul_nonnegative(sc, p[j - 1]);
        lemma_div_pos_is_pos(sc * p[j - 1], SCALE as int);
        let mi = mul_model(sc, p[j - 1]);
        assert(mi == tdiv(sc * p[j - 1], SCALE as int)) by {
            lemma_mul_inequality(p[j - 1], total, sc);
            lemma_mul_is_commutative(sc, p[j - 1]);
            lemma_mul_is_commutative(sc, total);
            lemma_div_is_ordered(sc * p[j - 1], sc * total, SCALE as int);
        }
        assert(mi <= d) by {
            lemma_mul_inequality(p[j - 1], total, sc);
            lemma_mul_is_commutative(sc, p[j - 1]);
            lemma_mul_is_commutative(sc, total);
            lemma_div_is_ordered(sc * p[j - 1], sc * total, SCALE as int);
        }
        lemma_ratio_le_one(mi, d);
        let prev = qsum_model(c, p, (j - 1) as nat);
        let prevb = scaled_floor_sum(p, sc, (j - 1) as nat);
        lemma_scaled_floor_sum_le(p, sc, (j - 1) as nat);
        lemma_mul_nonnegative(prevb, SCALE as int);
        lemma_div_pos_is_pos(prevb * (SCALE as int), d);
        lemma_mul_nonnegative(mi, SCALE as int);
        lemma_div_pos_is_pos(mi * (SCALE as int), d);
        lemma_div_superadd(prevb * (SCALE as int), mi * (SCALE as int), d);
        lemma_mul_is_distributive_add_other_way(SCALE as int, prevb, mi);
        // bound the final sum by one
        let sfsj = scaled_floor_sum(p, sc, j);
        assert(sfsj == prevb + mi);
        assert(sfsj <= d) by {
            lemma_scaled_floor_sum_mono(p, sc, j, p.len());
        }
        lemma_mul_nonnegative(sfsj, SCALE as int);
        assert(sfsj * (SCALE as int) <= d * (SCALE as int)) by {
            lemma_mul_inequality(sfsj, d, SCALE as int);
        }
        lemma_div_is_ordered(sfsj * (SCALE as int), d * (SCALE as int), d);
        lemma_div_by_multiple(SCALE as int, d);
        lemma_mul_is_commutative(d, SCALE as int);
    }
}

/// The scaled floor sums grow with the index.
proof fn lemma_scaled_floor_sum_mono(p: Seq<int>, sc: int, j1: nat, j2: nat)
    requires
        forall|i: int| 0 <= i < p.len() ==> #[trigger] p[i] >= 0,
        sc >= 0,
        j1 <= j2 <= p.len(),
    ensures
        scaled_floor_sum(p, sc, j1) <= scaled_floor_sum(p, sc, j2),
    decreases j2 - j1,
{
    if j1 < j2 {
        lemma_scaled_floor_sum_mono(p, sc, (j1 + 1) as nat, j2);
        lemma_mul_nonnegative(sc, p[j1 as int]);
        lemma_div_pos_is_pos(sc * p[j1 as int], SCALE as int);
    }
}

} // verus!
