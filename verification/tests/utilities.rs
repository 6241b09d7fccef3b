//! Tests of the shared helpers, random initialization, sharing mutation and
//! strategy surgery.

use dynapai::fx::{Fx, SCALE};
use dynapai::utils::{isapprox, isapprox_iters, positive_bound};
use dynapai::strategies::{Actions, ActionKind, Strategies};
use dynapai::prod_func::DefaultProd;
use dynapai::errors::ValidationError;

fn fxi(n: i64) -> Fx {
    Fx::of_int(n)
}

#[test]
fn isapprox_tolerances() {
    let rtol = Fx::raw(SCALE / 100);
    let atol = Fx::raw(2);
    assert!(isapprox(fxi(100), fxi(100), rtol, atol));
    // one percent of 100 is 1: a difference of exactly 1 passes
    assert!(isapprox(fxi(100), fxi(100).add(Fx::one()), rtol, atol));
    assert!(!isapprox(fxi(100), fxi(102), rtol, atol));
    // tiny values fall back to the absolute floor
    assert!(isapprox(Fx::raw(1), Fx::raw(3), rtol, atol));
    assert!(!isapprox(Fx::raw(1), Fx::raw(9), rtol, atol));
    let a = vec![fxi(1), fxi(2)];
    let b = vec![fxi(1), fxi(2)];
    assert!(isapprox_iters(&a, &b, rtol, atol));
    let c = vec![fxi(1), fxi(3)];
    assert!(!isapprox_iters(&a, &c, rtol, atol));
}

#[test]
fn positive_bound_saturates() {
    // 1 - e^(-x): zero at zero, about 0.632 at one, approaching one
    assert_eq!(positive_bound(Fx::zero()).v, 0);
    assert_eq!(positive_bound(fxi(-3)).v, 0);
    let at_one = positive_bound(fxi(1));
    assert!(at_one.v > 62 * SCALE / 100);
    assert!(at_one.v < 64 * SCALE / 100);
    let at_three = positive_bound(fxi(3));
    assert!(at_three.v > 94 * SCALE / 100);
    assert!(at_three.v < 96 * SCALE / 100);
    assert!(at_one.v < at_three.v);
    let big = positive_bound(fxi(10000));
    assert!(big.v > 99 * SCALE / 100);
    assert!(big.v <= SCALE);
}

#[test]
fn sharing_mutation_transfers_lead() {
    // agent 0 lags agent 1 and agent 1 shares fully enough that agent 0
    // gains part of the lead; nobody's coefficient falls
    let mut prod = DefaultProd::new(
        vec![fxi(1), fxi(5)],
        vec![Fx::one(), Fx::one()],
        vec![fxi(1), fxi(5)],
        vec![Fx::one(), Fx::one()],
    )
    .unwrap();
    // columns: xs, xp, inv_s, inv_p, share_s, share_p; agent 1 shares at rate 1
    let a = Actions::from_data(
        ActionKind::Sharing,
        vec![
            vec![fxi(1), fxi(1), Fx::zero(), Fx::zero(), Fx::zero(), Fx::zero()],
            vec![fxi(1), fxi(1), Fx::zero(), Fx::zero(), fxi(1), fxi(1)],
        ],
    )
    .unwrap();
    let a0_before = prod.a[0].v;
    let a1_before = prod.a[1].v;
    prod.mutate_on(&a);
    // agent 0 gains bound(1) * (5 - 1), computed here with the same
    // fixed-point steps the mutation uses
    let gain = positive_bound(fxi(1)).mul(fxi(5).sub(fxi(1)));
    assert!(gain.v > 2 * SCALE);
    assert_eq!(prod.a[0].v, a0_before + gain.v);
    // agent 1 has the larger coefficient, so it gains nothing
    assert_eq!(prod.a[1].v, a1_before);
}

#[test]
fn random_strategies_are_positive() {
    let s = Strategies::random(3, 2, ActionKind::Invest, Fx::raw(-98304), Fx::raw(9830)).unwrap();
    assert_eq!(s.t(), 3);
    assert_eq!(s.n(), 2);
    assert_eq!(s.kind(), ActionKind::Invest);
    for a in s.actions() {
        for col in 0..4 {
            for x in a.column(col).iter() {
                assert!(x.v >= 1);
            }
        }
    }
    let e = Strategies::random(0, 2, ActionKind::Basic, Fx::zero(), Fx::zero());
    assert_eq!(e.unwrap_err(), ValidationError::EmptyList);
}

#[test]
fn set_i_replaces_one_agent_only() {
    let mk = |x: i64| {
        Actions::from_data(
            ActionKind::Basic,
            vec![vec![Fx::raw(x), Fx::raw(x + 1)], vec![Fx::raw(100), Fx::raw(101)]],
        )
        .unwrap()
    };
    let mut s = Strategies::from_actions(vec![mk(10), mk(20)]).unwrap();
    let series = vec![
        vec![Fx::raw(7), Fx::raw(8)],
        vec![Fx::raw(9), Fx::raw(11)],
    ];
    s.set_i(0, &series);
    let acts = s.actions();
    assert_eq!(acts[0].xs()[0].v, 7);
    assert_eq!(acts[0].xp()[0].v, 8);
    assert_eq!(acts[1].xs()[0].v, 9);
    assert_eq!(acts[1].xp()[0].v, 11);
    // agent 1 is untouched
    assert_eq!(acts[0].xs()[1].v, 100);
    assert_eq!(acts[1].xp()[1].v, 101);
}
