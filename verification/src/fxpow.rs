//! Powers, base-two exponentials and base-two logarithms of fixed-point
//! numbers.
//!
//! `pow` raises a non-negative base to an arbitrary fixed-point exponent: the
//! integer part of the exponent by repeated multiplication, the fractional
//! part bit by bit through iterated square roots (`x^(2^-j)` is `j` square
//! roots of `x`), and a negative exponent through the reciprocal.  `log2`
//! inverts `exp2` approximately: it normalizes its argument into `[1, 2)` and
//! extracts fractional bits by repeated squaring.  Every function is proved
//! equal to a spec-level model built from the models in [`crate::fx`].

use vstd::prelude::*;
use crate::fx::{Fx, SCALE, mul_model, div_model, sqrt_model, sqrt_floor, lemma_mul_model_nonneg, lemma_div_model_nonneg, lemma_sqrt_floor_bounds};

verus! {

/// Two to the `j`-th power.
pub open spec fn bitw(j: nat) -> int
    decreases j,
{
    if j == 0 {
        1
    } else {
        2 * bitw((j - 1) as nat)
    }
}

/// `x` to the `k`-th power, in raw fixed-point units.
pub open spec fn powi_model(x: int, k: nat) -> int
    decreases k,
{
    if k == 0 {
        SCALE as int
    } else {
        mul_model(powi_model(x, (k - 1) as nat), x)
    }
}

/// `j` successive fixed-point square roots of `x`, so the raw value of
/// `x^(2^-j)`.
pub open spec fn sqrt_iter(x: int, j: nat) -> int
    decreases j,
{
    if j == 0 {
        x
    } else {
        sqrt_model(sqrt_iter(x, (j - 1) as nat))
    }
}

/// Whether fractional bit `j` (weight `2^-j`, `1 <= j <= 16`) of the raw
/// fraction `f` is set.
pub open spec fn frac_bit(f: int, j: nat) -> bool {
    (f / bitw((16 - j) as nat)) % 2 == 1
}

/// `x` to the power `f / SCALE` after processing the first `j` fractional
/// bits of `f`, in raw fixed-point units.
pub open spec fn powfrac_model(x: int, f: int, j: nat) -> int
    decreases j,
{
    if j == 0 {
        SCALE as int
    } else {
        let y = powfrac_model(x, f, (j - 1) as nat);
        if frac_bit(f, j) {
            mul_model(y, sqrt_iter(x, j))
        } else {
            y
        }
    }
}

/// The raw value of `x^(e / SCALE)` for a non-negative base (a negative base
/// yields zero): integer part by repeated multiplication, fractional part by
/// iterated square roots, negative exponents through the reciprocal.
pub open spec fn pow_model(x: int, e: int) -> int
    decreases (if e < 0 { 1int } else { 0int }),
{
    if x < 0 {
        0
    } else if e < 0 {
        div_model(SCALE as int, pow_model(x, -e))
    } else {
        mul_model(
            powi_model(x, (e / (SCALE as int)) as nat),
            powfrac_model(x, e % (SCALE as int), 16),
        )
    }
}

/// The raw value of `2^(z / SCALE)`.
pub open spec fn exp2_model(z: int) -> int {
    pow_model(2 * (SCALE as int), z)
}

/// `(k, y)`: halvings and remainder that bring `x` down into `[1, 2)`, using
/// at most `i` steps (64 steps suffice for any `i64` input).
pub open spec fn norm_down(x: int, i: nat) -> (int, int)
    decreases i,
{
    if i == 0 || x < 2 * (SCALE as int) {
        (0, x)
    } else {
        let p = norm_down(x / 2, (i - 1) as nat);
        (p.0 + 1, p.1)
    }
}

/// `(k, y)`: negated doublings and result that bring a positive `x` up into
/// `[1, 2)`, using at most `i` steps (17 steps suffice for any positive
/// input).
pub open spec fn norm_up(x: int, i: nat) -> (int, int)
    decreases i,
{
    if i == 0 || x >= SCALE as int {
        (0, x)
    } else {
        let p = norm_up(2 * x, (i - 1) as nat);
        (p.0 - 1, p.1)
    }
}

/// `(l, y)`: the first `j` fractional bits of the base-two logarithm of the
/// normalized value `y0` (raw, in `[1, 2)`), and the running square.
pub open spec fn log2_frac(y0: int, j: nat) -> (int, int)
    decreases j,
{
    if j == 0 {
        (0, y0)
    } else {
        let p = log2_frac(y0, (j - 1) as nat);
        let sq = mul_model(p.1, p.1);
        if sq >= 2 * (SCALE as int) {
            (p.0 + bitw((16 - j) as nat), sq / 2)
        } else {
            (p.0, sq)
        }
    }
}

/// The raw value of the base-two logarithm of `x / SCALE`, rounded;
/// non-positive inputs yield zero.
pub open spec fn log2_model(x: int) -> int {
    if x <= 0 {
        0
    } else {
        let p = if x >= SCALE as int {
            norm_down(x, 64)
        } else {
            norm_up(x, 17)
        };
        p.0 * (SCALE as int) + log2_frac(p.1, 16).0
    }
}

/// Two to a positive power is at least two.
proof fn lemma_bitw_pos(j: nat)
    ensures
        bitw(j) >= 1,
        j >= 1 ==> bitw(j) >= 2,
    decreases j,
{
    if j >= 1 {
        lemma_bitw_pos((j - 1) as nat);
    }
}

/// The fractional bits extracted by `log2_frac` sum to less than 1.0, and the
/// running square stays non-negative when the seed is non-negative.
proof fn lemma_log2_frac_bounds(y0: int, j: nat)
    requires
        j <= 16,
        y0 >= 0,
    ensures
        0 <= log2_frac(y0, j).0 <= bitw(16) - bitw((16 - j) as nat),
        log2_frac(y0, j).1 >= 0,
    decreases j,
{
    lemma_bitw_pos((16 - j) as nat);
    if j > 0 {
        lemma_log2_frac_bounds(y0, (j - 1) as nat);
        let p = log2_frac(y0, (j - 1) as nat);
        assert(mul_model(p.1, p.1) >= 0) by (nonlinear_arith)
            requires
                p.1 >= 0,
        ;
        assert(bitw((16 - (j - 1)) as nat) == 2 * bitw((16 - j) as nat));
        if log2_frac(y0, j).1 != mul_model(p.1, p.1) {
            vstd::arithmetic::div_mod::lemma_div_pos_is_pos(mul_model(p.1, p.1), 2);
        }
    }
}

/// Integer powers of a non-negative base are non-negative.
pub proof fn lemma_powi_model_nonneg(x: int, k: nat)
    requires
        x >= 0,
    ensures
        powi_model(x, k) >= 0,
    decreases k,
{
    if k > 0 {
        lemma_powi_model_nonneg(x, (k - 1) as nat);
        lemma_mul_model_nonneg(powi_model(x, (k - 1) as nat), x);
    }
}

/// Iterated square roots of a non-negative value are non-negative.
pub proof fn lemma_sqrt_iter_nonneg(x: int, j: nat)
    requires
        x >= 0,
    ensures
        sqrt_iter(x, j) >= 0,
    decreases j,
{
    if j > 0 {
        lemma_sqrt_iter_nonneg(x, (j - 1) as nat);
        let y = sqrt_iter(x, (j - 1) as nat);
        if y > 0 {
            lemma_sqrt_floor_bounds(y * (SCALE as int));
        }
    }
}

/// Fractional powers of a non-negative base are non-negative.
pub proof fn lemma_powfrac_model_nonneg(x: int, f: int, j: nat)
    requires
        x >= 0,
    ensures
        powfrac_model(x, f, j) >= 0,
    decreases j,
{
    if j > 0 {
        lemma_powfrac_model_nonneg(x, f, (j - 1) as nat);
        lemma_sqrt_iter_nonneg(x, j);
        lemma_mul_model_nonneg(powfrac_model(x, f, (j - 1) as nat), sqrt_iter(x, j));
    }
}

/// Every power of every base is non-negative (a negative base yields zero).
pub proof fn lemma_pow_model_nonneg(x: int, e: int)
    ensures
        pow_model(x, e) >= 0,
    decreases (if e < 0 { 1int } else { 0int }),
{
    if x >= 0 {
        if e < 0 {
            lemma_pow_model_nonneg(x, -e);
            lemma_div_model_nonneg(SCALE as int, pow_model(x, -e));
        } else {
            lemma_powi_model_nonneg(x, (e / (SCALE as int)) as nat);
            lemma_powfrac_model_nonneg(x, e % (SCALE as int), 16);
            lemma_mul_model_nonneg(
                powi_model(x, (e / (SCALE as int)) as nat),
                powfrac_model(x, e % (SCALE as int), 16),
            );
        }
    }
}

/// Scaling a value by a factor of at least one never shrinks it (up to
/// saturation).
pub proof fn lemma_mul_model_ge(a: int, b: int)
    requires
        0 <= a <= i64::MAX as int,
        b >= SCALE as int,
    ensures
        a <= mul_model(a, b) <= i64::MAX as int,
{
    lemma_mul_model_nonneg(a, b);
    vstd::arithmetic::mul::lemma_mul_inequality(SCALE as int, b, a);
    vstd::arithmetic::mul::lemma_mul_is_commutative(a, b);
    vstd::arithmetic::mul::lemma_mul_is_commutative(a, SCALE as int);
    vstd::arithmetic::div_mod::lemma_div_is_ordered(a * (SCALE as int), a * b, SCALE as int);
    vstd::arithmetic::div_mod::lemma_div_by_multiple(a, SCALE as int);
}

/// Iterated square roots of a value of at least one stay at least one.
pub proof fn lemma_sqrt_iter_ge_one(x: int, j: nat)
    requires
        SCALE as int <= x,
    ensures
        SCALE as int <= sqrt_iter(x, j),
    decreases j,
{
    if j > 0 {
        lemma_sqrt_iter_ge_one(x, (j - 1) as nat);
        let y = sqrt_iter(x, (j - 1) as nat);
        lemma_sqrt_floor_bounds(y * (SCALE as int));
        let r = sqrt_floor(y * (SCALE as int));
        assert(r >= SCALE as int) by (nonlinear_arith)
            requires
                y >= SCALE as int,
                r >= 0,
                (r + 1) * (r + 1) > y * (SCALE as int),
                SCALE == 65536,
        ;
    }
}

/// Integer powers of a base of at least one stay at least one.
pub proof fn lemma_powi_model_ge_one(x: int, k: nat)
    requires
        SCALE as int <= x,
    ensures
        SCALE as int <= powi_model(x, k) <= i64::MAX as int,
    decreases k,
{
    if k > 0 {
        lemma_powi_model_ge_one(x, (k - 1) as nat);
        lemma_mul_model_ge(powi_model(x, (k - 1) as nat), x);
    }
}

/// Fractional powers of a base of at least one stay at least one.
pub proof fn lemma_powfrac_model_ge_one(x: int, f: int, j: nat)
    requires
        SCALE as int <= x,
    ensures
        SCALE as int <= powfrac_model(x, f, j) <= i64::MAX as int,
    decreases j,
{
    if j > 0 {
        lemma_powfrac_model_ge_one(x, f, (j - 1) as nat);
        lemma_sqrt_iter_ge_one(x, j);
        lemma_mul_model_ge(powfrac_model(x, f, (j - 1) as nat), sqrt_iter(x, j));
    }
}

/// Two to a non-negative power is at least one.
pub proof fn lemma_pow2_ge_one(e: int)
    requires
        e >= 0,
    ensures
        SCALE as int <= pow_model(2 * (SCALE as int), e) <= i64::MAX as int,
{
    lemma_powi_model_ge_one(2 * (SCALE as int), (e / (SCALE as int)) as nat);
    lemma_powfrac_model_ge_one(2 * (SCALE as int), e % (SCALE as int), 16);
    lemma_mul_model_ge(
        powi_model(2 * (SCALE as int), (e / (SCALE as int)) as nat),
        powfrac_model(2 * (SCALE as int), e % (SCALE as int), 16),
    );
}

/// Two to a non-positive power is a probability: in `[0, 1]`.
pub proof fn lemma_exp2_nonpos_is_probability(z: int)
    requires
        z <= 0,
    ensures
        0 <= exp2_model(z) <= SCALE as int,
{
    reveal_with_fuel(pow_model, 2);
    if z == 0 {
        lemma_pow2_ge_one(0);
        assert(powi_model(2 * (SCALE as int), 0) == SCALE as int);
        assert(powfrac_model(2 * (SCALE as int), 0, 16) == powfrac_model(
            2 * (SCALE as int),
            0,
            15,
        )) by {
            lemma_bitw_pos((16 - 16) as nat);
            vstd::arithmetic::div_mod::lemma_small_div_converse(0, bitw(0));
        }
        lemma_exp2_zero_is_one();
    } else {
        lemma_pow2_ge_one(-z);
        let x = pow_model(2 * (SCALE as int), -z);
        lemma_div_model_nonneg(SCALE as int, x);
        vstd::arithmetic::div_mod::lemma_div_is_ordered_by_denominator(
            (SCALE as int) * (SCALE as int),
            SCALE as int,
            x,
        );
        vstd::arithmetic::div_mod::lemma_div_by_multiple(SCALE as int, SCALE as int);
        vstd::arithmetic::mul::lemma_mul_is_commutative(SCALE as int, SCALE as int);
    }
}

/// Two to the power zero is exactly one.
pub proof fn lemma_exp2_zero_is_one()
    ensures
        exp2_model(0) == SCALE as int,
{
    assert(powi_model(2 * (SCALE as int), 0) == SCALE as int);
    lemma_powfrac_zero(16);
    assert(mul_model(SCALE as int, SCALE as int) == SCALE as int);
}

/// A zero fraction contributes the neutral factor one.
proof fn lemma_powfrac_zero(j: nat)
    ensures
        powfrac_model(2 * (SCALE as int), 0, j) == SCALE as int,
    decreases j,
{
    if j > 0 {
        lemma_powfrac_zero((j - 1) as nat);
        lemma_bitw_pos((16 - j) as nat);
        vstd::arithmetic::div_mod::lemma_div_pos_is_pos(0, bitw((16 - j) as nat));
        vstd::arithmetic::div_mod::lemma_small_div_converse(0, bitw((16 - j) as nat));
    }
}

impl Fx {
    /// `self` to the `k`-th power.
    pub fn powi(self, k: u64) -> (r: Fx)
        ensures
            r.v as int == powi_model(self.v as int, k as nat),
    {
        let mut acc = Fx::one();
        for j in 0..k
            invariant
                acc.v as int == powi_model(self.v as int, j as nat),
        {
            acc = acc.mul(self);
        }
        acc
    }

    /// `self` to the power `f / SCALE`, for a fraction `0 <= f < SCALE`.
    fn powfrac(self, f: u64) -> (r: Fx)
        requires
            f < SCALE as u64,
        ensures
            r.v as int == powfrac_model(self.v as int, f as int, 16),
    {
        let mut y = Fx::one();
        let mut c = self;
        let mut w: u64 = 32768;
        proof {
            reveal_with_fuel(bitw, 17);
        }
        for j in 1u64..17u64
            invariant
                f < SCALE as u64,
                y.v as int == powfrac_model(self.v as int, f as int, (j - 1) as nat),
                c.v as int == sqrt_iter(self.v as int, (j - 1) as nat),
                j <= 16 ==> w as int == bitw((16 - j) as nat),
        {
            proof {
                assert(w as int == bitw((16 - j) as nat));
                assert(bitw((16 - j) as nat) >= 1 && bitw((16 - j) as nat) <= 32768) by {
                    reveal_with_fuel(bitw, 17);
                }
            }
            c = c.sqrt();
            if (f / w) % 2 == 1 {
                y = y.mul(c);
            }
            proof {
                if 16 - j >= 1 {
                    assert(bitw((16 - j) as nat) == 2 * bitw((16 - (j + 1)) as nat));
                }
            }
            w = w / 2;
        }
        y
    }

    /// `self` to the power `e` (both fixed point): zero for a negative base,
    /// the reciprocal power for a negative exponent.
    pub fn pow(self, e: Fx) -> (r: Fx)
        ensures
            r.v as int == pow_model(self.v as int, e.v as int),
    {
        if self.v < 0 {
            Fx::zero()
        } else if e.v >= 0 {
            let m = e.v as u64;
            let k = m / (SCALE as u64);
            let f = m % (SCALE as u64);
            proof {
                assert(k as int == e.v as int / (SCALE as int));
                assert(f as int == e.v as int % (SCALE as int));
            }
            self.powi(k).mul(self.powfrac(f))
        } else {
            let m = (-(e.v as i128)) as u64;
            let k = m / (SCALE as u64);
            let f = m % (SCALE as u64);
            proof {
                reveal_with_fuel(pow_model, 2);
                assert(m as int == -(e.v as int));
                assert(k as int == -(e.v as int) / (SCALE as int));
                assert(f as int == -(e.v as int) % (SCALE as int));
            }
            let p = self.powi(k).mul(self.powfrac(f));
            Fx::one().div(p)
        }
    }

    /// `2^self` as a fixed-point number.
    pub fn exp2(self) -> (r: Fx)
        ensures
            r.v as int == exp2_model(self.v as int),
    {
        Fx::raw(2 * SCALE).pow(self)
    }

    /// `2^self`, clamped below to the smallest positive fixed-point value, so
    /// the result is always strictly positive.
    pub fn exp2_pos(self) -> (r: Fx)
        ensures
            r.v as int == if exp2_model(self.v as int) < 1 { 1int } else {
                exp2_model(self.v as int)
            },
            r.v >= 1,
    {
        let e = self.exp2();
        if e.v < 1 {
            Fx::raw(1)
        } else {
            e
        }
    }

    /// The base-two logarithm of `self`, rounded; non-positive inputs yield
    /// zero.
    pub fn log2(self) -> (r: Fx)
        ensures
            r.v as int == log2_model(self.v as int),
    {
        if self.v <= 0 {
            return Fx::zero();
        }
        let mut k: i64 = 0;
        let mut y: u64 = self.v as u64;
        if y >= SCALE as u64 {
            for i in 0u64..64u64
                invariant
                    y >= 1,
                    0 <= k <= i,
                    y <= i64::MAX as u64,
                    norm_down(self.v as int, 64).0 == k + norm_down(y as int, (64 - i) as nat).0,
                    norm_down(self.v as int, 64).1 == norm_down(y as int, (64 - i) as nat).1,
            {
                if y >= 2 * (SCALE as u64) {
                    proof {
                        vstd::arithmetic::div_mod::lemma_div_pos_is_pos(y as int, 2);
                    }
                    y = y / 2;
                    k = k + 1;
                } else {
                    proof {
                        assert(norm_down(y as int, (64 - i) as nat) == norm_down(
                            y as int,
                            (64 - (i + 1)) as nat,
                        ));
                    }
                }
            }
        } else {
            for i in 0u64..17u64
                invariant
                    1 <= y <= 2 * (SCALE as u64),
                    -(i as int) <= k <= 0,
                    i <= 17,
                    norm_up(self.v as int, 17).0 == k + norm_up(y as int, (17 - i) as nat).0,
                    norm_up(self.v as int, 17).1 == norm_up(y as int, (17 - i) as nat).1,
            {
                if y < SCALE as u64 {
                    y = y * 2;
                    k = k - 1;
                } else {
                    proof {
                        assert(norm_up(y as int, (17 - i) as nat) == norm_up(
                            y as int,
                            (17 - (i + 1)) as nat,
                        ));
                    }
                }
            }
        }
        let ghost nrm = if self.v as int >= SCALE as int {
            norm_down(self.v as int, 64)
        } else {
            norm_up(self.v as int, 17)
        };
        assert(nrm.0 == k as int && nrm.1 == y as int);
        let mut l: i64 = 0;
        let mut yf = Fx::raw(y as i64);
        for j in 1u64..17u64
            invariant
                l as int == log2_frac(nrm.1, (j - 1) as nat).0,
                yf.v as int == log2_frac(nrm.1, (j - 1) as nat).1,
                yf.v >= 0,
                nrm.1 == y as int,
                y >= 1,
        {
            proof {
                lemma_log2_frac_bounds(nrm.1, (j - 1) as nat);
                lemma_log2_frac_bounds(nrm.1, j as nat);
                assert(bitw(16) == 65536) by {
                    reveal_with_fuel(bitw, 17);
                }
            }
            let sq = yf.mul(yf);
            if sq.v >= 2 * SCALE {
                let w: u64 = bitw_exec(16 - j);
                l = l + (w as i64);
                yf = Fx::raw(((sq.v as u64) / 2) as i64);
            } else {
                yf = sq;
            }
        }
        proof {
            lemma_log2_frac_bounds(nrm.1, 16);
            assert(bitw(16) == 65536) by {
                reveal_with_fuel(bitw, 17);
            }
        }
        Fx { v: k * SCALE + l }
    }
}

/// `2^j` as a machine word, for `j <= 16`.
fn bitw_exec(j: u64) -> (r: u64)
    requires
        j <= 16,
    ensures
        r as int == bitw(j as nat),
        1 <= r <= 65536,
{
    let mut r: u64 = 1;
    for i in 0..j
        invariant
            j <= 16,
            r as int == bitw(i as nat),
            1 <= r <= 65536,
    {
        proof {
            reveal_with_fuel(bitw, 17);
        }
        r = r * 2;
    }
    r
}

} // verus!
