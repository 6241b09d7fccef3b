//! Fixed-point scalars.
//!
//! A quantity is stored as an `i64` holding `SCALE` times its value, so one
//! unit is `SCALE` and the resolution is `1 / SCALE`.  Every operation
//! saturates at the `i64` range instead of overflowing, and each executable
//! operation is proved equal to a spec-level model over unbounded integers
//! (`add_model`, `mul_model`, ...), so contracts elsewhere in the crate can
//! speak of exact integer arithmetic.
//!
//! Multiplication and division round toward zero; the square root rounds
//! down.

use vstd::prelude::*;
use vstd::arithmetic::mul::*;
use vstd::arithmetic::div_mod::*;

verus! {

/// How many raw units make 1.0: two to the sixteenth.
pub const SCALE: i64 = 65536;

/// A fixed-point number: the represented value is `v / SCALE`.
#[derive(Clone, Copy, PartialEq, Eq, Structural, Debug)]
pub struct Fx {
    pub v: i64,
}

/// Clamp an unbounded integer into the `i64` range.
pub open spec fn sat64(x: int) -> int {
    if x > i64::MAX as int {
        i64::MAX as int
    } else if x < i64::MIN as int {
        i64::MIN as int
    } else {
        x
    }
}

/// Division truncated toward zero, for a positive divisor (zero or a negative
/// divisor yields zero; those cases are never relied upon).
pub open spec fn tdiv(a: int, b: int) -> int {
    if b <= 0 {
        0
    } else if a >= 0 {
        a / b
    } else {
        -((-a) / b)
    }
}

/// Division truncated toward zero, for any nonzero divisor (zero yields zero).
pub open spec fn tdivs(a: int, b: int) -> int {
    if b >= 0 {
        tdiv(a, b)
    } else {
        -tdiv(a, -b)
    }
}

pub open spec fn add_model(a: int, b: int) -> int {
    sat64(a + b)
}

pub open spec fn sub_model(a: int, b: int) -> int {
    sat64(a - b)
}

pub open spec fn neg_model(a: int) -> int {
    sat64(-a)
}

pub open spec fn mul_model(a: int, b: int) -> int {
    sat64(tdivs(a * b, SCALE as int))
}

pub open spec fn div_model(a: int, b: int) -> int {
    if b == 0 {
        0
    } else {
        sat64(tdivs(a * (SCALE as int), b))
    }
}

/// The integer square root, rounded down: the unique `r >= 0` with
/// `r * r <= n < (r + 1) * (r + 1)`.
pub open spec fn sqrt_floor(n: int) -> int
    decreases n,
{
    if n <= 0 {
        0
    } else {
        let r = sqrt_floor(n - 1);
        if (r + 1) * (r + 1) <= n {
            r + 1
        } else {
            r
        }
    }
}

/// `sqrt_model(a)` is the raw value of the fixed-point square root of `a`:
/// `floor(sqrt(a * SCALE))`, so that the represented values satisfy
/// `(r / SCALE)^2 ~ a / SCALE`.  Negative inputs yield zero.
pub open spec fn sqrt_model(a: int) -> int {
    if a <= 0 {
        0
    } else {
        sqrt_floor(a * (SCALE as int))
    }
}

pub proof fn lemma_sqrt_floor_bounds(n: int)
    requires
        n >= 0,
    ensures
        0 <= sqrt_floor(n),
        sqrt_floor(n) * sqrt_floor(n) <= n,
        n < (sqrt_floor(n) + 1) * (sqrt_floor(n) + 1),
    decreases n,
{
    if n > 0 {
        lemma_sqrt_floor_bounds(n - 1);
        let r = sqrt_floor(n - 1);
        if (r + 1) * (r + 1) <= n {
            assert(n < (r + 2) * (r + 2)) by (nonlinear_arith)
                requires
                    r >= 0,
                    n - 1 < (r + 1) * (r + 1),
            ;
        }
    }
}

pub proof fn lemma_sqrt_floor_unique(n: int, r: int)
    requires
        n >= 0,
        r >= 0,
        r * r <= n,
        n < (r + 1) * (r + 1),
    ensures
        r == sqrt_floor(n),
{
    lemma_sqrt_floor_bounds(n);
    let s = sqrt_floor(n);
    if r < s {
        assert((r + 1) * (r + 1) <= s * s) by (nonlinear_arith)
            requires
                0 <= r + 1 <= s,
        ;
    }
    if s < r {
        assert((s + 1) * (s + 1) <= r * r) by (nonlinear_arith)
            requires
                0 <= s + 1 <= r,
        ;
    }
}

/// The product of two `i64` values stays well inside the `i128` range.
proof fn lemma_i64_product_range(a: int, b: int)
    by (nonlinear_arith)
    requires
        i64::MIN as int <= a <= i64::MAX as int,
        i64::MIN as int <= b <= i64::MAX as int,
    ensures
        -0x4000_0000_0000_0000_0000_0000_0000_0000 <= a * b,
        a * b <= 0x4000_0000_0000_0000_0000_0000_0000_0000,
{
}

/// Truncating division never grows the magnitude of the dividend.
proof fn lemma_tdiv_le_magnitude(a: int, b: int)
    requires
        b >= 1,
    ensures
        a >= 0 ==> 0 <= tdiv(a, b) <= a,
        a < 0 ==> a <= tdiv(a, b) <= 0,
{
    if a >= 0 {
        lemma_div_pos_is_pos(a, b);
        lemma_div_is_ordered_by_denominator(a, 1, b);
        lemma_div_basics(a);
    } else {
        lemma_div_pos_is_pos(-a, b);
        lemma_div_is_ordered_by_denominator(-a, 1, b);
        lemma_div_basics(-a);
    }
}

/// The product of non-negative values is non-negative, and so is its scaled
/// truncation.
pub proof fn lemma_mul_model_nonneg(a: int, b: int)
    requires
        a >= 0,
        b >= 0,
    ensures
        mul_model(a, b) >= 0,
{
    assert(a * b >= 0) by (nonlinear_arith)
        requires
            a >= 0,
            b >= 0,
    ;
    lemma_div_pos_is_pos(a * b, SCALE as int);
}

/// The quotient of non-negative values is non-negative.
pub proof fn lemma_div_model_nonneg(a: int, b: int)
    requires
        a >= 0,
        b >= 0,
    ensures
        div_model(a, b) >= 0,
{
    if b != 0 {
        lemma_div_pos_is_pos(a * (SCALE as int), b);
    }
}

/// Clamp a raw value into the probability range `[0, SCALE]`.
pub open spec fn clamp01_model(x: int) -> int {
    if x < 0 {
        0
    } else if x > SCALE as int {
        SCALE as int
    } else {
        x
    }
}

/// Weighting a non-negative quantity by a probability keeps it in `[0, x]`.
pub proof fn lemma_mul_model_probability(x: int, f: int)
    requires
        x >= 0,
        0 <= f <= SCALE as int,
    ensures
        0 <= mul_model(x, f) <= x,
{
    lemma_mul_model_nonneg(x, f);
    lemma_mul_inequality(f, SCALE as int, x);
    lemma_mul_is_commutative(x, f);
    lemma_mul_is_commutative(x, SCALE as int);
    lemma_mul_nonnegative(x, f);
    lemma_div_is_ordered(x * f, x * (SCALE as int), SCALE as int);
    lemma_div_by_multiple(x, SCALE as int);
    lemma_mul_is_commutative(SCALE as int, x);
}

/// Clamp an `i128` into the `i64` range.
fn sat_narrow(x: i128) -> (r: i64)
    ensures
        r as int == sat64(x as int),
{
    if x > i64::MAX as i128 {
        i64::MAX
    } else if x < i64::MIN as i128 {
        i64::MIN
    } else {
        x as i64
    }
}

/// Division of an `i128` by a positive divisor, truncated toward zero.
fn tdiv_narrow(a: i128, b: u128) -> (r: i128)
    requires
        0 < b <= 0x8000_0000_0000_0000,
        -0x4000_0000_0000_0000_0000_0000_0000_0000 <= a as int
            <= 0x4000_0000_0000_0000_0000_0000_0000_0000,
    ensures
        r as int == tdiv(a as int, b as int),
{
    proof {
        lemma_tdiv_le_magnitude(a as int, b as int);
    }
    if a >= 0 {
        let q = (a as u128) / b;
        q as i128
    } else {
        let m = (-a) as u128;
        let q = m / b;
        -(q as i128)
    }
}

impl Fx {
    /// The raw representation of 0.
    pub fn zero() -> (r: Fx)
        ensures
            r.v == 0,
    {
        Fx { v: 0 }
    }

    /// The raw representation of 1.
    pub fn one() -> (r: Fx)
        ensures
            r.v == SCALE,
    {
        Fx { v: SCALE }
    }

    /// The fixed-point number with raw value `v`.
    pub fn raw(v: i64) -> (r: Fx)
        ensures
            r.v == v,
    {
        Fx { v }
    }

    /// The fixed-point representation of the integer `n`, saturated.
    pub fn of_int(n: i64) -> (r: Fx)
        ensures
            r.v as int == sat64(n * (SCALE as int)),
    {
        proof {
            lemma_i64_product_range(n as int, SCALE as int);
        }
        Fx { v: sat_narrow((n as i128) * (SCALE as i128)) }
    }

    /// Saturating fixed-point addition.
    pub fn add(self, o: Fx) -> (r: Fx)
        ensures
            r.v as int == add_model(self.v as int, o.v as int),
    {
        Fx { v: sat_narrow(self.v as i128 + o.v as i128) }
    }

    /// Saturating fixed-point subtraction.
    pub fn sub(self, o: Fx) -> (r: Fx)
        ensures
            r.v as int == sub_model(self.v as int, o.v as int),
    {
        Fx { v: sat_narrow(self.v as i128 - o.v as i128) }
    }

    /// Saturating negation.
    pub fn neg(self) -> (r: Fx)
        ensures
            r.v as int == neg_model(self.v as int),
    {
        Fx { v: sat_narrow(-(self.v as i128)) }
    }

    /// Saturating fixed-point multiplication, truncated toward zero.
    pub fn mul(self, o: Fx) -> (r: Fx)
        ensures
            r.v as int == mul_model(self.v as int, o.v as int),
    {
        proof {
            lemma_i64_product_range(self.v as int, o.v as int);
        }
        let p = (self.v as i128) * (o.v as i128);
        Fx { v: sat_narrow(tdiv_narrow(p, SCALE as u128)) }
    }

    /// Saturating fixed-point division, truncated toward zero; division by
    /// zero yields zero.
    pub fn div(self, o: Fx) -> (r: Fx)
        ensures
            r.v as int == div_model(self.v as int, o.v as int),
    {
        if o.v == 0 {
            Fx { v: 0 }
        } else {
            proof {
                lemma_i64_product_range(self.v as int, SCALE as int);
            }
            let p = (self.v as i128) * (SCALE as i128);
            if o.v > 0 {
                Fx { v: sat_narrow(tdiv_narrow(p, o.v as u128)) }
            } else {
                let m = (-(o.v as i128)) as u128;
                Fx { v: sat_narrow(-tdiv_narrow(p, m)) }
            }
        }
    }

    /// Fixed-point square root, rounded down; negative inputs yield zero.
    pub fn sqrt(self) -> (r: Fx)
        ensures
            r.v as int == sqrt_model(self.v as int),
    {
        if self.v <= 0 {
            Fx { v: 0 }
        } else {
            let n = (self.v as u128) * (SCALE as u128);
            let r = isqrt(n);
            proof {
                lemma_sqrt_floor_unique(n as int, r as int);
                assert(r as int <= 0x100_0000_0000) by (nonlinear_arith)
                    requires
                        r as int * r as int <= n as int,
                        n < 0x1_0000_0000_0000_0000_0000,
                        r >= 0,
                ;
            }
            Fx { v: r as i64 }
        }
    }

    /// Whether `self <= o` as represented values.
    pub fn le(self, o: Fx) -> (r: bool)
        ensures
            r == (self.v <= o.v),
    {
        self.v <= o.v
    }

    /// Whether `self < o` as represented values.
    pub fn lt(self, o: Fx) -> (r: bool)
        ensures
            r == (self.v < o.v),
    {
        self.v < o.v
    }

    /// The larger of two fixed-point numbers.
    pub fn fmax(self, o: Fx) -> (r: Fx)
        ensures
            r.v == if self.v >= o.v { self.v } else { o.v },
    {
        if self.v >= o.v {
            self
        } else {
            o
        }
    }

    /// Clamp into the probability range `[0, 1]`.
    pub fn clamp01(self) -> (r: Fx)
        ensures
            r.v as int == clamp01_model(self.v as int),
    {
        if self.v < 0 {
            Fx::zero()
        } else if self.v > SCALE {
            Fx::one()
        } else {
            self
        }
    }

    /// The absolute value, saturated.
    pub fn abs(self) -> (r: Fx)
        ensures
            r.v as int == if self.v >= 0 { self.v as int } else { neg_model(self.v as int) },
    {
        if self.v >= 0 {
            self
        } else {
            self.neg()
        }
    }
}

/// The integer square root of `n`, rounded down, for `n` below `2^80`.
fn isqrt(n: u128) -> (r: u64)
    requires
        n < 0x1_0000_0000_0000_0000_0000,
    ensures
        r as int * r as int <= n as int,
        (r as int + 1) * (r as int + 1) > n as int,
{
    let mut lo: u64 = 0;
    let mut hi: u64 = 0x100_0000_0000;
    proof {
        assert(hi as int * hi as int > n as int) by (nonlinear_arith)
            requires
                hi == 0x100_0000_0000,
                n < 0x1_0000_0000_0000_0000_0000,
        ;
    }
    while lo + 1 < hi
        invariant
            lo < hi <= 0x100_0000_0000,
            lo as int * lo as int <= n as int,
            hi as int * hi as int > n as int,
        decreases hi - lo,
    {
        let mid = lo + (hi - lo) / 2;
        proof {
            assert(0x1_0000_0000_0000_0000_0000_0000 > mid as int * mid as int) by (nonlinear_arith)
                requires
                    mid < 0x100_0000_0000,
            ;
        }
        let sq = (mid as u128) * (mid as u128);
        if sq <= n {
            lo = mid;
        } else {
            hi = mid;
        }
    }
    lo
}

} // verus!
