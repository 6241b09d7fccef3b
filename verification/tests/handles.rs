//! Tests of the host-facing handle types.

use dynapai::fx::Fx;
use dynapai::strategies::{Actions, ActionKind};
use dynapai::prod_func::DefaultProd;
use dynapai::risk_func::WinnerOnlyRisk;
use dynapai::csf::{CSF, DefaultCSF};
use dynapai::reward_func::LinearReward;
use dynapai::disaster_cost::ConstantDisasterCost;
use dynapai::cost_func::FixedCost;
use dynapai::payoff_func::ModularPayoff;
use dynapai::state::{State, CommonBeliefs, HetBeliefs};
use dynapai::py::{ActionContainer, PyActions, PyStrategies, PyState, PyCostFunc, as_state};
use dynapai::errors::ValidationError;

fn fxi(n: i64) -> Fx {
    Fx::of_int(n)
}

fn basic(rows: Vec<Vec<Fx>>) -> Actions {
    Actions::from_data(ActionKind::Basic, rows).unwrap()
}

fn payoff(n: usize) -> ModularPayoff {
    let half = Fx::raw(dynapai::SCALE / 2);
    let mut ones = Vec::new();
    let mut halves = Vec::new();
    for _ in 0..n {
        ones.push(Fx::one());
        halves.push(half);
    }
    let prod = DefaultProd::new(ones.clone(), halves.clone(), ones, halves).unwrap();
    let risk = WinnerOnlyRisk::new(n, Fx::zero()).unwrap();
    let reward = LinearReward::default(n).unwrap();
    let disaster = ConstantDisasterCost::new(n, Fx::zero()).unwrap();
    let cost = FixedCost::from_params(ActionKind::Basic, n, vec![Fx::one(), Fx::one()]).unwrap();
    ModularPayoff::new(prod, risk, CSF::Default(DefaultCSF), reward, disaster, cost).unwrap()
}

#[test]
fn action_handles_tag_and_count() {
    let a = basic(vec![vec![fxi(1), fxi(2)], vec![fxi(3), fxi(4)]]);
    let h = PyActions(ActionContainer::of_actions(a));
    assert_eq!(h.n(), 2);
    assert_eq!(h.py_type(), "basic");
    let inv = Actions::from_data(
        ActionKind::Invest,
        vec![vec![fxi(1), fxi(1), fxi(1), fxi(1)]],
    )
    .unwrap();
    let h = PyActions(ActionContainer::of_actions(inv));
    assert_eq!(h.py_type(), "invest");
}

#[test]
fn strategy_handles_round_trip() {
    let a0 = basic(vec![vec![Fx::raw(11), Fx::raw(12)]]);
    let a1 = basic(vec![vec![Fx::raw(21), Fx::raw(22)]]);
    let list = vec![
        PyActions(ActionContainer::of_actions(a0)),
        PyActions(ActionContainer::of_actions(a1)),
    ];
    let s = PyStrategies::from_actions_list(list).unwrap();
    let back = s.to_actions_list();
    assert_eq!(back.len(), 2);
    assert_eq!(back[0].0.actions().xs()[0].v, 11);
    assert_eq!(back[0].0.actions().xp()[0].v, 12);
    assert_eq!(back[1].0.actions().xs()[0].v, 21);
    assert_eq!(back[1].0.actions().xp()[0].v, 22);
    let e = PyStrategies::from_actions_list(vec![]);
    assert_eq!(e.unwrap_err(), ValidationError::EmptyList);
}

#[test]
fn state_handles_tag_and_unwrap() {
    let common = PyState(State::Common(CommonBeliefs(payoff(2))));
    assert_eq!(common.atype(), "common");
    let st = as_state(&common);
    assert_eq!(st.n(), 2);
    let beliefs = vec![payoff(2), payoff(2)];
    let het = PyState(State::Het(HetBeliefs::new(beliefs).unwrap()));
    assert_eq!(het.atype(), "het");
    let st = as_state(&het);
    assert_eq!(st.n(), 2);
}

#[test]
fn cost_handle_reports_kind() {
    let cost = FixedCost::from_params(ActionKind::Sharing, 2, vec![
        Fx::one(),
        Fx::one(),
        Fx::one(),
        Fx::one(),
        Fx::one(),
        Fx::one(),
    ])
    .unwrap();
    let h = PyCostFunc(cost);
    assert_eq!(h.atype(), ActionKind::Sharing);
}
