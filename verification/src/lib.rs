//! Verified core of an options-arbitrage portfolio constructor.
//!
//! Given a set of priced option instruments, the library detects mispricing
//! relative to quoted market prices and formulates a linear program whose
//! optimum chooses long/short position sizes that maximize expected arbitrage
//! profit under capital, liquidity, position-limit and stochastic-dominance
//! constraints.  All monetary quantities are fixed-point integers scaled by
//! [`fixed::SCALE`], so every formula in the formulation and in the solution
//! checks is exact and proved.
//!
//! The numerical work that cannot be verified — the transcendental part of
//! Black-Scholes pricing and the LP solver backend — stays outside the
//! library.  Callers price the instruments, hand the theoretical prices to
//! [`arbitrage::find_arbitrage`], run any LP backend on the returned
//! [`linear::LinearProgram`], and hand the assignment back to
//! [`solution::resolve_solution`], which re-checks every declared constraint
//! before accepting it.

pub mod arbitrage;
pub mod error;
pub mod fixed;
pub mod instrument;
pub mod linear;
pub mod solution;
pub mod trend;
