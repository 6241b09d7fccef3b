//! Tests of states, temporal aggregation, discounting and the
//! survival-probability trajectory.

use dynapai::fx::{Fx, SCALE};
use dynapai::strategies::{Actions, ActionKind, Strategies};
use dynapai::prod_func::DefaultProd;
use dynapai::risk_func::WinnerOnlyRisk;
use dynapai::csf::{CSF, DefaultCSF, MaybeNoWinCSF};
use dynapai::reward_func::LinearReward;
use dynapai::disaster_cost::ConstantDisasterCost;
use dynapai::cost_func::FixedCost;
use dynapai::payoff_func::ModularPayoff;
use dynapai::state::{State, CommonBeliefs, HetBeliefs};
use dynapai::aggregator::Aggregator;
use dynapai::errors::ValidationError;

fn fxi(n: i64) -> Fx {
    Fx::of_int(n)
}

fn fill(n: usize, x: Fx) -> Vec<Fx> {
    let mut v = Vec::new();
    for _ in 0..n {
        v.push(x);
    }
    v
}

fn payoff(n: usize, kind: ActionKind, csf: CSF) -> ModularPayoff {
    let half = Fx::raw(SCALE / 2);
    let prod = DefaultProd::new(
        fill(n, Fx::one()),
        fill(n, half),
        fill(n, Fx::one()),
        fill(n, half),
    )
    .unwrap();
    let risk = WinnerOnlyRisk::new(n, Fx::zero()).unwrap();
    let reward = LinearReward::default(n).unwrap();
    let disaster = ConstantDisasterCost::new(n, Fx::zero()).unwrap();
    let mut params = Vec::new();
    for _ in 0..kind.k() {
        params.push(Fx::one());
    }
    let cost = FixedCost::from_params(kind, n, params).unwrap();
    ModularPayoff::new(prod, risk, csf, reward, disaster, cost).unwrap()
}

fn basic_strat(t: usize, n: usize) -> Strategies {
    let mut acts = Vec::new();
    for _ in 0..t {
        let mut rows = Vec::new();
        for _ in 0..n {
            rows.push(vec![fxi(1), fxi(1)]);
        }
        acts.push(Actions::from_data(ActionKind::Basic, rows).unwrap());
    }
    Strategies::from_actions(acts).unwrap()
}

#[test]
fn strategy_round_trip() {
    // building a profile from actions and reading it back is the identity,
    // raw value for raw value
    let mut acts = Vec::new();
    for t in 0..3 {
        let rows = vec![
            vec![Fx::raw(17 + t), Fx::raw(5)],
            vec![Fx::raw(99), Fx::raw(3 * t + 1)],
        ];
        acts.push(Actions::from_data(ActionKind::Basic, rows).unwrap());
    }
    let originals: Vec<Vec<Vec<i64>>> = acts
        .iter()
        .map(|a| a.xs().iter().zip(a.xp().iter()).map(|(x, p)| vec![x.v, p.v]).collect())
        .collect();
    let s = Strategies::from_actions(acts).unwrap();
    assert_eq!(s.t(), 3);
    assert_eq!(s.n(), 2);
    let back = s.actions();
    for t in 0..3 {
        let xs = back[t].xs();
        let xp = back[t].xp();
        for q in 0..2 {
            assert_eq!(xs[q].v, originals[t][q][0]);
            assert_eq!(xp[q].v, originals[t][q][1]);
        }
    }
}

#[test]
fn strategy_validation() {
    let e = Strategies::from_actions(vec![]);
    assert_eq!(e.unwrap_err(), ValidationError::EmptyList);
    let a1 = Actions::from_data(ActionKind::Basic, vec![vec![fxi(1), fxi(1)]]).unwrap();
    let a2 = Actions::from_data(
        ActionKind::Basic,
        vec![vec![fxi(1), fxi(1)], vec![fxi(1), fxi(1)]],
    )
    .unwrap();
    let e = Strategies::from_actions(vec![a1, a2]);
    assert_eq!(e.unwrap_err(), ValidationError::DimensionMismatch);
}

#[test]
fn het_beliefs_validation() {
    let e = HetBeliefs::new(vec![]);
    assert_eq!(e.unwrap_err(), ValidationError::EmptyList);
    // three beliefs each reporting two agents: count mismatch
    let b = payoff(2, ActionKind::Basic, CSF::Default(DefaultCSF));
    let e = HetBeliefs::new(vec![b.clone(), b.clone(), b]);
    assert_eq!(e.unwrap_err(), ValidationError::DimensionMismatch);
}

fn fixed_aggregator(n: usize, gamma: Fx) -> Aggregator {
    let pf = payoff(n, ActionKind::Basic, CSF::Default(DefaultCSF));
    let state = State::Common(CommonBeliefs(pf));
    Aggregator::new(state, fill(n, gamma), false, false).unwrap()
}

#[test]
fn fixed_state_geometric_sum() {
    // with a constant state and a constant discount factor, the aggregate
    // utility is the geometric sum of the per-period utility, computed here
    // independently with the same fixed-point steps
    let gamma = Fx::raw(SCALE / 2);
    for t in [1usize, 5, 20] {
        let agg = fixed_aggregator(2, gamma);
        let strat = basic_strat(t, 2);
        let pf = payoff(2, ActionKind::Basic, CSF::Default(DefaultCSF));
        let per = pf.u_i(0, &strat.actions()[0]);
        let mut expected = Fx::zero();
        for tt in 0..t {
            expected = expected.add(gamma.powi(tt as u64).mul(per));
        }
        assert_eq!(agg.u_i(0, &strat).v, expected.v);
    }
}

#[test]
fn aggregate_utility_is_pure() {
    // evaluating the same strategy twice gives identical results
    let agg = fixed_aggregator(2, Fx::raw(SCALE / 2));
    let strat = basic_strat(4, 2);
    let u1 = agg.u(&strat);
    let u2 = agg.u(&strat);
    assert_eq!(u1.len(), u2.len());
    for i in 0..u1.len() {
        assert_eq!(u1[i].v, u2[i].v);
    }
    let u3 = agg.u_i(0, &strat);
    assert_eq!(u1[0].v, u3.v);
}

#[test]
fn vector_matches_scalar_aggregate() {
    let agg = fixed_aggregator(3, Fx::raw(SCALE / 4));
    let strat = basic_strat(3, 3);
    let u = agg.u(&strat);
    for i in 0..3 {
        assert_eq!(u[i].v, agg.u_i(i, &strat).v);
    }
}

#[test]
fn dynamic_state_grows_on_investment() {
    // investment raises the production scale from the second period on, so a
    // dynamic aggregator values an investing strategy differently from a
    // fixed-state one
    let n = 2;
    let pf = payoff(n, ActionKind::Invest, CSF::MaybeNoWin(MaybeNoWinCSF::default()));
    let state = State::Common(CommonBeliefs(pf.clone()));
    let dynamic = Aggregator::new(state, fill(n, Fx::raw(SCALE / 2)), true, false).unwrap();
    let state2 = State::Common(CommonBeliefs(pf));
    let fixed = Aggregator::new(state2, fill(n, Fx::raw(SCALE / 2)), false, false).unwrap();
    let mut acts = Vec::new();
    for _ in 0..3 {
        let mut rows = Vec::new();
        for _ in 0..n {
            rows.push(vec![fxi(1), fxi(1), fxi(5), fxi(5)]);
        }
        acts.push(Actions::from_data(ActionKind::Invest, rows).unwrap());
    }
    let strat = Strategies::from_actions(acts).unwrap();
    let du = dynamic.u_i(0, &strat);
    let fu = fixed.u_i(0, &strat);
    assert!(du.v > fu.v);
}

#[test]
fn probas_trajectory_monotone() {
    let n = 2;
    let pf = payoff(n, ActionKind::Basic, CSF::MaybeNoWin(MaybeNoWinCSF::default()));
    let state = State::Common(CommonBeliefs(pf));
    let agg = Aggregator::new(state, fill(n, Fx::raw(SCALE / 2)), false, true).unwrap();
    let strat = basic_strat(5, n);
    let rows = agg.probas(&strat).unwrap();
    assert_eq!(rows.len(), 5);
    for row in &rows {
        assert_eq!(row.len(), n);
    }
    for i in 0..n {
        assert_eq!(rows[0][i].v, SCALE);
        for t in 1..5 {
            assert!(rows[t][i].v <= rows[t - 1][i].v);
            assert!(rows[t][i].v >= 0);
            assert!(rows[t][i].v <= SCALE);
        }
        // the damped rule leaves the contest genuinely undecided, so the
        // probability really shrinks but stays positive
        assert!(rows[4][i].v < SCALE);
        assert!(rows[4][i].v > 0);
    }
}

#[test]
fn probas_requires_contest_ending_rule() {
    let agg = fixed_aggregator(2, Fx::raw(SCALE / 2));
    let strat = basic_strat(3, 2);
    let e = agg.probas(&strat);
    assert_eq!(e.unwrap_err(), ValidationError::NotEndsOnContestWin);
}

#[test]
fn ends_on_contest_win_discounts_by_survival() {
    // under the contest-ending rule every period after the first is weighted
    // by a survival probability below one, so the total is smaller
    let n = 2;
    let pf = payoff(n, ActionKind::Basic, CSF::MaybeNoWin(MaybeNoWinCSF::default()));
    let state = State::Common(CommonBeliefs(pf.clone()));
    let eow = Aggregator::new(state, fill(n, Fx::one()), false, true).unwrap();
    let state2 = State::Common(CommonBeliefs(pf));
    let plain = Aggregator::new(state2, fill(n, Fx::one()), false, false).unwrap();
    let strat = basic_strat(4, n);
    // per-period utility here is negative (costs dominate), so survival
    // weighting makes the total less negative
    let ue = eow.u_i(0, &strat);
    let up = plain.u_i(0, &strat);
    assert!(ue.v > up.v);
}

#[test]
fn aggregator_validation() {
    let pf = payoff(2, ActionKind::Basic, CSF::Default(DefaultCSF));
    let state = State::Common(CommonBeliefs(pf));
    let e = Aggregator::new(state, fill(3, Fx::one()), false, false);
    assert_eq!(e.unwrap_err(), ValidationError::DimensionMismatch);
}

#[test]
fn heterogeneous_beliefs_value_periods_differently() {
    // agent 0 believes production scales are twice what agent 1 believes, so
    // the two agents assign different utilities to one and the same strategy
    let n = 2;
    let mk = |scale: i64| {
        let half = Fx::raw(SCALE / 2);
        let prod = DefaultProd::new(
            fill(n, fxi(scale)),
            fill(n, half),
            fill(n, fxi(scale)),
            fill(n, half),
        )
        .unwrap();
        let risk = WinnerOnlyRisk::new(n, Fx::zero()).unwrap();
        let reward = LinearReward::default(n).unwrap();
        let disaster = ConstantDisasterCost::new(n, Fx::zero()).unwrap();
        let cost =
            FixedCost::from_params(ActionKind::Basic, n, vec![Fx::one(), Fx::one()]).unwrap();
        ModularPayoff::new(prod, risk, CSF::Default(DefaultCSF), reward, disaster, cost).unwrap()
    };
    let het = HetBeliefs::new(vec![mk(2), mk(1)]).unwrap();
    let agg = Aggregator::new(State::Het(het), fill(n, Fx::one()), true, false).unwrap();
    let strat = basic_strat(2, n);
    let u = agg.u(&strat);
    // both beliefs are symmetric across agents, so the difference comes from
    // the beliefs alone: the richer belief yields the higher utility
    assert!(u[0].v > u[1].v);
}
