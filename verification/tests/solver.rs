//! Tests of the iterated-best-response solver.

use dynapai::fx::{Fx, SCALE};
use dynapai::strategies::{Actions, ActionKind, Strategies};
use dynapai::prod_func::DefaultProd;
use dynapai::risk_func::WinnerOnlyRisk;
use dynapai::csf::{CSF, DefaultCSF};
use dynapai::reward_func::LinearReward;
use dynapai::disaster_cost::ConstantDisasterCost;
use dynapai::cost_func::FixedCost;
use dynapai::payoff_func::ModularPayoff;
use dynapai::state::{State, CommonBeliefs};
use dynapai::aggregator::Aggregator;
use dynapai::solve::{solve, solve_all, solve_mixed, InitGuess, NMOptions, SolverOptions, SolverStatus};
use dynapai::errors::ValidationError;

fn fxi(n: i64) -> Fx {
    Fx::of_int(n)
}

fn fill(n: usize, x: Fx) -> Vec<Fx> {
    let mut v = Vec::new();
    for _ in 0..n {
        v.push(x);
    }
    v
}

/// The symmetric two-agent contest: unit scales, square-root production,
/// proportional contest success, winner-only risk, zero disaster cost, unit
/// linear costs.
fn tullock_aggregator() -> Aggregator {
    let n = 2;
    let half = Fx::raw(SCALE / 2);
    let prod = DefaultProd::new(
        fill(n, Fx::one()),
        fill(n, half),
        fill(n, Fx::one()),
        fill(n, half),
    )
    .unwrap();
    let risk = WinnerOnlyRisk::new(n, Fx::zero()).unwrap();
    let csf = CSF::Default(DefaultCSF);
    let reward = LinearReward::default(n).unwrap();
    let disaster = ConstantDisasterCost::new(n, Fx::zero()).unwrap();
    let cost = FixedCost::from_params(ActionKind::Basic, n, vec![Fx::one(), Fx::one()]).unwrap();
    let pf = ModularPayoff::new(prod, risk, csf, reward, disaster, cost).unwrap();
    Aggregator::new(
        State::Common(CommonBeliefs(pf)),
        fill(n, Fx::raw(SCALE / 2)),
        false,
        false,
    )
    .unwrap()
}

fn symmetric_guess(x: Fx) -> Strategies {
    let rows = vec![vec![x, x], vec![x, x]];
    let a = Actions::from_data(ActionKind::Basic, rows).unwrap();
    Strategies::from_actions(vec![a]).unwrap()
}

fn options(guess: InitGuess, iters: u64) -> SolverOptions {
    SolverOptions {
        init_guess: guess,
        iters,
        tol: Fx::raw(4),
        nm_options: NMOptions::default(),
        hist_size: 2,
    }
}

#[test]
fn zero_iterations_returns_guess_unchanged() {
    let agg = tullock_aggregator();
    let guess = symmetric_guess(Fx::raw(SCALE / 8));
    let opts = options(InitGuess::Fixed(guess), 0);
    let r = solve(&agg, &opts);
    assert_eq!(r.status, SolverStatus::ReachedMaxIterations);
    let s = r.strategies.unwrap();
    assert_eq!(s.t(), 1);
    assert_eq!(s.n(), 2);
    for row in 0..2 {
        let a = &s.actions()[0];
        assert_eq!(a.xs()[row].v, SCALE / 8);
        assert_eq!(a.xp()[row].v, SCALE / 8);
    }
}

#[test]
fn non_positive_guess_fails() {
    let agg = tullock_aggregator();
    let guess = symmetric_guess(Fx::zero());
    let opts = options(InitGuess::Fixed(guess), 5);
    let r = solve(&agg, &opts);
    assert_eq!(r.status, SolverStatus::Failed);
    assert!(r.strategies.is_none());
}

#[test]
fn mismatched_guess_fails() {
    let agg = tullock_aggregator();
    // three agents in the guess, two in the aggregator
    let rows = vec![
        vec![Fx::one(), Fx::one()],
        vec![Fx::one(), Fx::one()],
        vec![Fx::one(), Fx::one()],
    ];
    let a = Actions::from_data(ActionKind::Basic, rows).unwrap();
    let guess = Strategies::from_actions(vec![a]).unwrap();
    let r = solve(&agg, &options(InitGuess::Fixed(guess), 5));
    assert_eq!(r.status, SolverStatus::Failed);
    assert!(r.strategies.is_none());
}

#[test]
fn zero_horizon_random_guess_fails() {
    let agg = tullock_aggregator();
    let r = solve(&agg, &options(InitGuess::Random(0), 5));
    assert_eq!(r.status, SolverStatus::Failed);
    assert!(r.strategies.is_none());
}

#[test]
fn random_guess_solves_and_stays_positive() {
    let agg = tullock_aggregator();
    let r = solve(&agg, &options(InitGuess::Random(1), 3));
    assert!(r.status == SolverStatus::Success || r.status == SolverStatus::ReachedMaxIterations);
    let s = r.strategies.unwrap();
    assert_eq!(s.t(), 1);
    assert_eq!(s.n(), 2);
    for a in s.actions() {
        for x in a.xs().iter().chain(a.xp().iter()) {
            assert!(x.v >= 1);
        }
    }
}

#[test]
fn tullock_contest_regression() {
    // the closed-form oracle for the symmetric contest: at the equilibrium,
    // marginal cost equals marginal expected reward, which puts the safety
    // effort near 0.033 and the performance effort near 0.019 (both agents
    // equal); the solver must land near it and no small unilateral deviation
    // may improve an agent's utility appreciably
    let agg = tullock_aggregator();
    let guess = symmetric_guess(Fx::raw(SCALE / 8));
    let opts = options(InitGuess::Fixed(guess), 40);
    let r = solve(&agg, &opts);
    assert!(r.status == SolverStatus::Success || r.status == SolverStatus::ReachedMaxIterations);
    let s = r.strategies.unwrap();
    let a = &s.actions()[0];
    let xs = a.xs();
    let xp = a.xp();
    // symmetry between the two agents
    assert!((xs[0].v - xs[1].v).abs() < SCALE / 16);
    assert!((xp[0].v - xp[1].v).abs() < SCALE / 16);
    // the oracle values, with a tolerance wide enough for the coarse
    // fixed-point grid
    let xs_star = (0.0331_f64 * SCALE as f64) as i64;
    let xp_star = (0.0194_f64 * SCALE as f64) as i64;
    assert!((xs[0].v - xs_star).abs() < SCALE / 16, "xs = {}", xs[0].v);
    assert!((xp[0].v - xp_star).abs() < SCALE / 16, "xp = {}", xp[0].v);
    // no unilateral improvement: doubling or halving either effort of agent 0
    // must not raise its utility by more than the tolerance
    let base_u = agg.u_i(0, &s);
    for (dx, dp) in [(2i64, 1i64), (1, 2), (-2, 1), (1, -2)] {
        let scale_by = |v: Fx, d: i64| {
            if d >= 0 {
                v.mul(Fx::of_int(d.max(1)))
            } else {
                v.div(Fx::of_int(-d))
            }
        };
        let rows = vec![
            vec![scale_by(xs[0], dx), scale_by(xp[0], dp)],
            vec![xs[1], xp[1]],
        ];
        let a2 = Actions::from_data(ActionKind::Basic, rows).unwrap();
        let s2 = Strategies::from_actions(vec![a2]).unwrap();
        let u2 = agg.u_i(0, &s2);
        assert!(u2.v <= base_u.v + SCALE / 64, "deviation improved: {} > {}", u2.v, base_u.v);
    }
}

#[test]
fn batch_solving_matches_single() {
    let a1 = tullock_aggregator();
    let a2 = tullock_aggregator();
    let opts = options(InitGuess::Fixed(symmetric_guess(Fx::raw(SCALE / 8))), 0);
    let rs = solve_all(&vec![a1, a2], &opts);
    assert_eq!(rs.len(), 2);
    for r in &rs {
        assert_eq!(r.status, SolverStatus::ReachedMaxIterations);
    }
}

#[test]
fn mixed_solver_keeps_history_shape() {
    let agg = tullock_aggregator();
    let mut opts = options(InitGuess::Random(1), 2);
    opts.nm_options.iters = 20;
    let hist = solve_mixed(&agg, &opts).unwrap();
    assert_eq!(hist.len(), 2);
    for s in &hist {
        assert_eq!(s.t(), 1);
        assert_eq!(s.n(), 2);
        for a in s.actions() {
            for x in a.xs().iter().chain(a.xp().iter()) {
                assert!(x.v >= 1);
            }
        }
    }
}

#[test]
fn mixed_solver_rejects_empty_history() {
    let agg = tullock_aggregator();
    let mut opts = options(InitGuess::Random(1), 2);
    opts.hist_size = 0;
    let e = solve_mixed(&agg, &opts);
    assert_eq!(e.unwrap_err(), ValidationError::EmptyList);
}

#[test]
fn mixed_solver_rejects_bad_guess() {
    let agg = tullock_aggregator();
    let opts = options(InitGuess::Fixed(symmetric_guess(Fx::zero())), 2);
    let e = solve_mixed(&agg, &opts);
    assert_eq!(e.unwrap_err(), ValidationError::DimensionMismatch);
}
