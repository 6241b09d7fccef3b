//! Exact-value tests for the fixed-point numeric core.

use dynapai::fx::{Fx, SCALE};

fn fxi(n: i64) -> Fx {
    Fx::of_int(n)
}

#[test]
fn add_sub_exact() {
    assert_eq!(fxi(3).add(fxi(4)).v, 7 * SCALE);
    assert_eq!(fxi(3).sub(fxi(4)).v, -SCALE);
    assert_eq!(Fx::raw(1).add(Fx::raw(2)).v, 3);
    assert_eq!(fxi(0).neg().v, 0);
    assert_eq!(fxi(5).neg().v, -5 * SCALE);
}

#[test]
fn add_saturates() {
    let big = Fx::raw(i64::MAX);
    assert_eq!(big.add(big).v, i64::MAX);
    let small = Fx::raw(i64::MIN);
    assert_eq!(small.add(small).v, i64::MIN);
}

#[test]
fn mul_div_exact() {
    assert_eq!(fxi(3).mul(fxi(2)).v, 6 * SCALE);
    assert_eq!(fxi(6).div(fxi(2)).v, 3 * SCALE);
    // one half times one half is one quarter
    let half = Fx::raw(SCALE / 2);
    assert_eq!(half.mul(half).v, SCALE / 4);
    // division by zero yields zero by convention
    assert_eq!(fxi(1).div(fxi(0)).v, 0);
    // truncation toward zero
    assert_eq!(fxi(-3).div(fxi(2)).v, -3 * SCALE / 2);
}

#[test]
fn sqrt_exact() {
    assert_eq!(fxi(4).sqrt().v, 2 * SCALE);
    assert_eq!(fxi(9).sqrt().v, 3 * SCALE);
    // sqrt(2.25) == 1.5 exactly
    let x = Fx::raw(2 * SCALE + SCALE / 4);
    assert_eq!(x.sqrt().v, SCALE + SCALE / 2);
    assert_eq!(fxi(0).sqrt().v, 0);
    assert_eq!(fxi(-4).sqrt().v, 0);
}

#[test]
fn pow_exact() {
    // integer exponents
    assert_eq!(fxi(2).powi(10).v, 1024 * SCALE);
    assert_eq!(fxi(5).powi(0).v, SCALE);
    // square root through a fractional exponent
    let half = Fx::raw(SCALE / 2);
    assert_eq!(fxi(4).pow(half).v, 2 * SCALE);
    assert_eq!(fxi(16).pow(half).v, 4 * SCALE);
    // negative exponent: 2^-1 == 0.5
    assert_eq!(fxi(2).pow(fxi(-1)).v, SCALE / 2);
    // negative base yields zero
    assert_eq!(fxi(-2).pow(fxi(2)).v, 0);
}

#[test]
fn exp2_log2_exact() {
    assert_eq!(fxi(3).exp2().v, 8 * SCALE);
    assert_eq!(fxi(0).exp2().v, SCALE);
    assert_eq!(fxi(-1).exp2().v, SCALE / 2);
    assert_eq!(fxi(8).log2().v, 3 * SCALE);
    assert_eq!(fxi(1).log2().v, 0);
    // log2 of a non-positive value is zero by convention
    assert_eq!(fxi(0).log2().v, 0);
    assert_eq!(fxi(-3).log2().v, 0);
    // round trip on a power of two
    assert_eq!(fxi(4).log2().exp2().v, 4 * SCALE);
}

#[test]
fn exp2_pos_is_positive() {
    // far below the representable range, the clamp keeps the result positive
    assert_eq!(fxi(-40).exp2_pos().v, 1);
    assert!(fxi(-40).exp2().v == 0);
    assert_eq!(fxi(2).exp2_pos().v, 4 * SCALE);
}

#[test]
fn comparisons_and_clamp() {
    assert!(fxi(1).lt(fxi(2)));
    assert!(fxi(2).le(fxi(2)));
    assert_eq!(fxi(-1).abs().v, SCALE);
    assert_eq!(fxi(3).fmax(fxi(5)).v, 5 * SCALE);
    assert_eq!(Fx::raw(-7).clamp01().v, 0);
    assert_eq!(Fx::raw(SCALE + 5).clamp01().v, SCALE);
    assert_eq!(Fx::raw(300).clamp01().v, 300);
}
