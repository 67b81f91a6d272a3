//! Failure taxonomy of a portfolio-construction request.

use vstd::prelude::*;

verus! {

/// Everything that can go wrong while constructing a portfolio.
///
/// The first two variants are detected before constraint building and abort
/// the whole request; the middle three surface backend outcomes; the last is
/// the distinguished "no arbitrage opportunity found" outcome of a feasible
/// but unprofitable solve.
#[derive(Clone, Copy, Debug, PartialEq, Eq, Structural)]
pub enum ArbitrageError {
    /// An instrument has a non-positive underlying or strike price, a
    /// negative time to maturity, or a negative volatility.
    InvalidInstrument,
    /// An input list does not match the instrument count, or the benchmark
    /// payoffs or risk levels are empty.
    DimensionMismatch,
    /// The solver reported that no assignment satisfies all constraints.
    Infeasible,
    /// The solver reported that the objective can grow without bound.
    Unbounded,
    /// The solver broke down, or the assignment it returned fails the
    /// library's own re-check of the declared constraints.
    NumericalFailure,
    /// The solve succeeded but the optimal objective does not beat the
    /// no-trade baseline by more than the configured margin.
    NoArbitrageOpportunity,
}

} // verus!
