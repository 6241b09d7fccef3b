//! Multi-period, multi-agent contest games: a modular payoff pipeline turns
//! per-period actions into per-agent utilities, a temporal aggregator
//! discounts and sums them over a finite horizon (optionally truncated by the
//! probability that the contest has already been won), and an
//! iterated-best-response solver searches for an approximate Nash
//! equilibrium.
//!
//! All quantities are fixed-point numbers ([`fx::Fx`], 16 fractional bits) so
//! that every arithmetic step has an exact mathematical model; the contracts
//! of the executable functions pin each result to those models.

pub mod aggregator;
pub mod cost_func;
pub mod csf;
pub mod disaster_cost;
pub mod errors;
pub mod fx;
pub mod fxpow;
pub mod payoff_func;
pub mod prod_func;
pub mod py;
pub mod reward_func;
pub mod risk_func;
pub mod sample;
pub mod solve;
pub mod state;
pub mod strategies;
pub mod utils;

pub use fx::Fx;
pub use fx::SCALE;
