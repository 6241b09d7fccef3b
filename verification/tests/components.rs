//! Tests of the modular payoff components and the payoff combinator.

use dynapai::fx::{Fx, SCALE};
use dynapai::strategies::{Actions, ActionKind};
use dynapai::prod_func::DefaultProd;
use dynapai::risk_func::WinnerOnlyRisk;
use dynapai::csf::{CSF, DefaultCSF, MaybeNoWinCSF};
use dynapai::reward_func::LinearReward;
use dynapai::disaster_cost::ConstantDisasterCost;
use dynapai::cost_func::FixedCost;
use dynapai::payoff_func::ModularPayoff;
use dynapai::errors::ValidationError;

fn fxi(n: i64) -> Fx {
    Fx::of_int(n)
}

fn ones(n: usize) -> Vec<Fx> {
    let mut v = Vec::new();
    for _ in 0..n {
        v.push(Fx::one());
    }
    v
}

fn fill(n: usize, x: Fx) -> Vec<Fx> {
    let mut v = Vec::new();
    for _ in 0..n {
        v.push(x);
    }
    v
}

fn basic_actions(rows: Vec<Vec<Fx>>) -> Actions {
    Actions::from_data(ActionKind::Basic, rows).unwrap()
}

#[test]
fn actions_validation() {
    let e = Actions::from_data(ActionKind::Basic, vec![]);
    assert_eq!(e.unwrap_err(), ValidationError::EmptyList);
    let e = Actions::from_data(ActionKind::Basic, vec![vec![Fx::one()]]);
    assert_eq!(e.unwrap_err(), ValidationError::WrongColumns);
    let e = Actions::from_data(ActionKind::Invest, vec![vec![Fx::one(), Fx::one()]]);
    assert_eq!(e.unwrap_err(), ValidationError::WrongColumns);
    let e = Actions::from_data(ActionKind::Basic, vec![vec![Fx::one(), Fx::raw(-1)]]);
    assert_eq!(e.unwrap_err(), ValidationError::NegativeEntry);
    let a = basic_actions(vec![vec![fxi(4), fxi(9)], vec![fxi(1), fxi(1)]]);
    assert_eq!(a.n(), 2);
    assert_eq!(a.xs()[0].v, 4 * SCALE);
    assert_eq!(a.xp()[0].v, 9 * SCALE);
}

#[test]
fn prod_func_powers() {
    // a = 1, alpha = 0.5: the safety signal is the square root of the effort
    let n = 2;
    let half = Fx::raw(SCALE / 2);
    let prod = DefaultProd::new(ones(n), fill(n, half), ones(n), fill(n, half)).unwrap();
    let a = basic_actions(vec![vec![fxi(4), fxi(16)], vec![fxi(9), fxi(25)]]);
    let (s, p) = prod.f(&a);
    assert_eq!(s[0].v, 2 * SCALE);
    assert_eq!(p[0].v, 4 * SCALE);
    assert_eq!(s[1].v, 3 * SCALE);
    assert_eq!(p[1].v, 5 * SCALE);
}

#[test]
fn prod_func_validation() {
    let e = DefaultProd::new(vec![], vec![], vec![], vec![]);
    assert_eq!(e.unwrap_err(), ValidationError::EmptyList);
    let e = DefaultProd::new(ones(2), ones(1), ones(2), ones(2));
    assert_eq!(e.unwrap_err(), ValidationError::DimensionMismatch);
    let e = DefaultProd::new(vec![Fx::raw(-1), Fx::one()], ones(2), ones(2), ones(2));
    assert_eq!(e.unwrap_err(), ValidationError::NegativeEntry);
}

#[test]
fn prod_func_invest_mutation() {
    let n = 2;
    let mut prod = DefaultProd::new(ones(n), ones(n), ones(n), ones(n)).unwrap();
    // rows: xs, xp, inv_s, inv_p
    let a = Actions::from_data(
        ActionKind::Invest,
        vec![
            vec![Fx::one(), Fx::one(), fxi(2), fxi(3)],
            vec![Fx::one(), Fx::one(), fxi(5), fxi(7)],
        ],
    )
    .unwrap();
    prod.mutate_on(&a);
    assert_eq!(prod.a[0].v, 3 * SCALE);
    assert_eq!(prod.a[1].v, 6 * SCALE);
    assert_eq!(prod.b[0].v, 4 * SCALE);
    assert_eq!(prod.b[1].v, 8 * SCALE);
    // basic actions change nothing
    let b = basic_actions(vec![vec![fxi(1), fxi(1)], vec![fxi(1), fxi(1)]]);
    let before = (prod.a[0].v, prod.b[1].v);
    prod.mutate_on(&b);
    assert_eq!((prod.a[0].v, prod.b[1].v), before);
}

#[test]
fn risk_sigma_half_at_unit_signal() {
    let risk = WinnerOnlyRisk::new(2, Fx::zero()).unwrap();
    let s = vec![Fx::one(), fxi(3)];
    let p = vec![fxi(7), fxi(9)];
    // theta == 0: sigma = s / (1 + s); s == 1 gives one half
    assert_eq!(risk.sigma_i(0, &s, &p).v, SCALE / 2);
    // s == 3 gives 3/4
    assert_eq!(risk.sigma_i(1, &s, &p).v, 3 * SCALE / 4);
    let sig = risk.sigma(&s, &p);
    assert_eq!(sig[0].v, SCALE / 2);
    assert_eq!(sig[1].v, 3 * SCALE / 4);
}

#[test]
fn default_csf_proportional() {
    let c = CSF::Default(DefaultCSF);
    let p = vec![Fx::one(), Fx::one()];
    let q = c.q(&p);
    assert_eq!(q[0].v, SCALE / 2);
    assert_eq!(q[1].v, SCALE / 2);
    // an all-zero performance vector decides nothing
    let z = vec![Fx::zero(), Fx::zero()];
    let q = c.q(&z);
    assert_eq!(q[0].v, 0);
    assert_eq!(q[1].v, 0);
    // asymmetric shares
    let p = vec![fxi(1), fxi(3)];
    let q = c.q(&p);
    assert_eq!(q[0].v, SCALE / 4);
    assert_eq!(q[1].v, 3 * SCALE / 4);
}

#[test]
fn csf_probabilities_sum_below_one() {
    // the contract proved in general; spot checks on concrete vectors
    for c in [
        CSF::Default(DefaultCSF),
        CSF::MaybeNoWin(MaybeNoWinCSF::default()),
        CSF::MaybeNoWin(MaybeNoWinCSF::new(fxi(3))),
    ] {
        for p in [
            vec![Fx::zero(), Fx::zero()],
            vec![fxi(1), fxi(2)],
            vec![Fx::raw(7), Fx::raw(11), Fx::raw(100)],
            vec![fxi(1000), fxi(1), fxi(5)],
        ] {
            let q = c.q(&p);
            let mut total: i64 = 0;
            for x in &q {
                assert!(x.v >= 0);
                assert!(x.v <= SCALE);
                total += x.v;
            }
            assert!(total <= SCALE);
            if matches!(c, CSF::MaybeNoWin(_)) {
                // the damped rule always leaves room for nobody winning
                assert!(total < SCALE);
            }
        }
    }
}

#[test]
fn maybe_no_win_leaves_room() {
    let c = CSF::MaybeNoWin(MaybeNoWinCSF::default());
    let p = vec![Fx::one(), Fx::one()];
    // q_i = 1 / (1 + 2) = one third, truncated
    let q = c.q(&p);
    assert_eq!(q[0].v, SCALE / 3);
    assert_eq!(q[1].v, SCALE / 3);
}

#[test]
fn linear_reward_default_pays_winner() {
    let r = LinearReward::default(3).unwrap();
    let p = vec![fxi(1), fxi(2), fxi(3)];
    let row = r.reward(1, &p);
    assert_eq!(row[0].v, 0);
    assert_eq!(row[1].v, SCALE);
    assert_eq!(row[2].v, 0);
    let e = LinearReward::new(ones(2), ones(3), ones(2), ones(2));
    assert_eq!(e.unwrap_err(), ValidationError::DimensionMismatch);
}

#[test]
fn fixed_cost_dot_product() {
    let c = FixedCost::from_params(ActionKind::Basic, 2, vec![Fx::one(), fxi(2)]).unwrap();
    let a = basic_actions(vec![vec![fxi(3), fxi(4)], vec![fxi(1), fxi(1)]]);
    // 1*3 + 2*4 = 11
    assert_eq!(c.c_i(0, &a).v, 11 * SCALE);
    assert_eq!(c.c(&a)[1].v, 3 * SCALE);
    let e = FixedCost::from_params(ActionKind::Basic, 0, vec![Fx::one(), fxi(2)]);
    assert_eq!(e.unwrap_err(), ValidationError::EmptyList);
    let e = FixedCost::from_params(ActionKind::Basic, 2, vec![Fx::one()]);
    assert_eq!(e.unwrap_err(), ValidationError::WrongColumns);
}

fn symmetric_payoff(n: usize) -> ModularPayoff {
    let half = Fx::raw(SCALE / 2);
    let prod = DefaultProd::new(ones(n), fill(n, half), ones(n), fill(n, half)).unwrap();
    let risk = WinnerOnlyRisk::new(n, Fx::zero()).unwrap();
    let csf = CSF::Default(DefaultCSF);
    let reward = LinearReward::default(n).unwrap();
    let disaster = ConstantDisasterCost::new(n, Fx::zero()).unwrap();
    let cost = FixedCost::from_params(ActionKind::Basic, n, vec![Fx::one(), Fx::one()]).unwrap();
    ModularPayoff::new(prod, risk, csf, reward, disaster, cost).unwrap()
}

#[test]
fn payoff_vector_matches_scalar() {
    // the vectorized and scalar payoffs agree entry by entry
    let pf = symmetric_payoff(3);
    let a = basic_actions(vec![
        vec![fxi(4), fxi(1)],
        vec![fxi(1), fxi(9)],
        vec![Fx::raw(SCALE / 4), fxi(2)],
    ]);
    let u = pf.u(&a);
    assert_eq!(u.len(), 3);
    for i in 0..3 {
        assert_eq!(u[i].v, pf.u_i(i, &a).v);
    }
}

#[test]
fn payoff_exact_value_two_agents() {
    // both agents play xs = 1, xp = 1: sigma = 1/2, q = 1/2, winner reward 1,
    // no disaster cost, cost = xs + xp = 2;
    // u_i = sigma_i q_i * 1 - 0 - 2 = 1/4 - 2
    let pf = symmetric_payoff(2);
    let a = basic_actions(vec![vec![fxi(1), fxi(1)], vec![fxi(1), fxi(1)]]);
    let u = pf.u(&a);
    assert_eq!(u[0].v, SCALE / 4 - 2 * SCALE);
    assert_eq!(u[1].v, SCALE / 4 - 2 * SCALE);
}

#[test]
fn payoff_dimension_mismatch_rejected() {
    let half = Fx::raw(SCALE / 2);
    let prod = DefaultProd::new(ones(2), fill(2, half), ones(2), fill(2, half)).unwrap();
    let risk = WinnerOnlyRisk::new(3, Fx::zero()).unwrap();
    let csf = CSF::Default(DefaultCSF);
    let reward = LinearReward::default(2).unwrap();
    let disaster = ConstantDisasterCost::new(2, Fx::zero()).unwrap();
    let cost = FixedCost::from_params(ActionKind::Basic, 2, vec![Fx::one(), Fx::one()]).unwrap();
    let e = ModularPayoff::new(prod, risk, csf, reward, disaster, cost);
    assert_eq!(e.unwrap_err(), ValidationError::DimensionMismatch);
}
