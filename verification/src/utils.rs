//! Small shared numeric helpers: approximate comparison with a relative and
//! an absolute tolerance, and the saturating transform `1 - e^(-x)` that maps
//! a non-negative quantity into `[0, 1]`.

use vstd::prelude::*;
use crate::fx::{Fx, SCALE, add_model, mul_model, sub_model, neg_model, lemma_mul_model_nonneg};
use crate::fxpow::{exp2_model, lemma_exp2_nonpos_is_probability};

verus! {

/// The absolute value of a raw fixed-point value (saturated).
pub open spec fn abs_model(x: int) -> int {
    if x >= 0 {
        x
    } else {
        neg_model(x)
    }
}

/// The larger of two values.
pub open spec fn max_model(a: int, b: int) -> int {
    if a >= b {
        a
    } else {
        b
    }
}

/// Zero for negative values, the value itself otherwise.
pub open spec fn max0(x: int) -> int {
    if x < 0 {
        0
    } else {
        x
    }
}

/// Whether `a` and `b` agree within relative tolerance `rtol` plus absolute
/// floor `atol`: `|a - b| <= max(atol, rtol * max(|a|, |b|))`.
pub open spec fn isapprox_model(a: int, b: int, rtol: int, atol: int) -> bool {
    abs_model(sub_model(a, b)) <= max_model(atol, mul_model(rtol, max_model(abs_model(a), abs_model(b))))
}

/// Whether `a` and `b` agree within relative tolerance `rtol` plus absolute
/// floor `atol`.
pub fn isapprox(a: Fx, b: Fx, rtol: Fx, atol: Fx) -> (r: bool)
    ensures
        r == isapprox_model(a.v as int, b.v as int, rtol.v as int, atol.v as int),
{
    let diff = a.sub(b).abs();
    let maxval = a.abs().fmax(b.abs());
    let thr = atol.fmax(rtol.mul(maxval));
    diff.le(thr)
}

/// Whether the paired entries of `a` and `b` (up to the shorter length) all
/// agree within the given tolerances.
pub open spec fn isapprox_all_model(a: Seq<int>, b: Seq<int>, rtol: int, atol: int) -> bool {
    forall|i: int|
        0 <= i < vstd::math::min(a.len() as int, b.len() as int) ==> isapprox_model(
            #[trigger] a[i],
            b[i],
            rtol,
            atol,
        )
}

/// Whether the paired entries of `a` and `b` (up to the shorter length) all
/// agree within the given tolerances.
pub fn isapprox_iters(a: &Vec<Fx>, b: &Vec<Fx>, rtol: Fx, atol: Fx) -> (r: bool)
    ensures
        r == isapprox_all_model(
            crate::strategies::fx_row(a@),
            crate::strategies::fx_row(b@),
            rtol.v as int,
            atol.v as int,
        ),
{
    let ghost av = crate::strategies::fx_row(a@);
    let ghost bv = crate::strategies::fx_row(b@);
    let m = if a.len() <= b.len() {
        a.len()
    } else {
        b.len()
    };
    for i in 0..m
        invariant
            m as int == vstd::math::min(av.len() as int, bv.len() as int),
            av == crate::strategies::fx_row(a@),
            bv == crate::strategies::fx_row(b@),
            forall|p: int|
                0 <= p < i ==> isapprox_model(#[trigger] av[p], bv[p], rtol.v as int, atol.v as int),
    {
        proof {
            assert(av[i as int] == a@[i as int].v as int);
            assert(bv[i as int] == b@[i as int].v as int);
        }
        if !isapprox(a[i], b[i], rtol, atol) {
            return false;
        }
    }
    true
}

/// The base-two logarithm of Euler's number, in raw fixed-point units, so
/// that `2^(x * LOG2_E)` is `e^x`.
pub const LOG2_E: i64 = 94548;

/// The raw value of the saturating transform `1 - e^(-x)`, computed as
/// `1 - 2^(-x * log2(e))`; zero on non-positive inputs.
pub open spec fn pb_model(x: int) -> int {
    if x <= 0 {
        0
    } else {
        sub_model(SCALE as int, exp2_model(neg_model(mul_model(x, LOG2_E as int))))
    }
}

/// Map a quantity into `[0, 1]` by the saturating transform `1 - e^(-x)`
/// (zero on non-positive inputs).
pub fn positive_bound(x: Fx) -> (r: Fx)
    ensures
        r.v as int == pb_model(x.v as int),
        0 <= r.v <= SCALE,
{
    if x.v <= 0 {
        Fx::zero()
    } else {
        proof {
            lemma_mul_model_nonneg(x.v as int, LOG2_E as int);
            lemma_exp2_nonpos_is_probability(neg_model(mul_model(x.v as int, LOG2_E as int)));
        }
        Fx::one().sub(x.mul(Fx::raw(LOG2_E)).neg().exp2())
    }
}

/// Copy a row of fixed-point numbers.
pub fn clone_row(src: &Vec<Fx>) -> (r: Vec<Fx>)
    ensures
        r@ == src@,
{
    let mut r: Vec<Fx> = Vec::new();
    let n = src.len();
    for i in 0..n
        invariant
            n == src@.len(),
            r@.len() == i,
            forall|p: int| 0 <= p < i ==> r@[p] == src@[p],
    {
        r.push(src[i]);
    }
    proof {
        assert(r@ =~= src@);
    }
    r
}

} // verus!
