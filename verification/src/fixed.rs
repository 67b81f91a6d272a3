//! Fixed-point representation of monetary and position quantities.
//!
//! Every scalar the library works with — prices, transaction costs,
//! liquidity limits, capital, risk levels, positions — is an `i64` holding
//! the quantity multiplied by [`SCALE`].  The limits below bound each class
//! of quantity so that every product and sum in the formulation and in the
//! solution checks provably fits the machine integers that compute it.

use vstd::prelude::*;

verus! {

/// One whole unit, in fixed-point ticks: values carry six decimal places.
pub const SCALE: i64 = 1_000_000;

/// Bound on price-like quantities (prices, costs, benchmark payoffs):
/// one million whole units.
pub const PRICE_LIMIT: i64 = 1_000_000_000_000;

/// Bound on position-like quantities (liquidity limits, position sizes):
/// one million whole units.
pub const QUANTITY_LIMIT: i64 = 1_000_000_000_000;

/// Bound on risk-level weights: one thousand.
pub const RISK_LIMIT: i64 = 1_000_000_000;

/// Bound on the capital budget: one billion whole units.
pub const CAPITAL_LIMIT: i64 = 1_000_000_000_000_000;

/// Bound on the acceptance tolerance of a solve: one thousand whole units.
pub const TOLERANCE_LIMIT: i64 = 1_000_000_000;

/// Bound on the number of instruments in one solve.  Together with the
/// coefficient and quantity bounds it keeps every constraint evaluation
/// within `i128`.
pub const MAX_ASSETS: usize = 3000;

/// A price-like quantity is representable.
pub open spec fn price_in_range(v: i64) -> bool {
    -PRICE_LIMIT <= v <= PRICE_LIMIT
}

/// A transaction cost is nonnegative and representable.
pub open spec fn cost_in_range(v: i64) -> bool {
    0 <= v <= PRICE_LIMIT
}

/// A liquidity limit is nonnegative and representable.
pub open spec fn liquidity_in_range(v: i64) -> bool {
    0 <= v <= QUANTITY_LIMIT
}

/// A risk level is positive and representable.
pub open spec fn risk_in_range(v: i64) -> bool {
    0 < v <= RISK_LIMIT
}

/// Every element of `s` is a representable price.
pub open spec fn prices_in_range(s: Seq<i64>) -> bool {
    forall|i: int| 0 <= i < s.len() ==> price_in_range(#[trigger] s[i])
}

/// Every element of `s` is a representable transaction cost.
pub open spec fn costs_in_range(s: Seq<i64>) -> bool {
    forall|i: int| 0 <= i < s.len() ==> cost_in_range(#[trigger] s[i])
}

/// Every element of `s` is a representable liquidity limit.
pub open spec fn liquidities_in_range(s: Seq<i64>) -> bool {
    forall|i: int| 0 <= i < s.len() ==> liquidity_in_range(#[trigger] s[i])
}

/// Every element of `s` is a representable risk level.
pub open spec fn risks_in_range(s: Seq<i64>) -> bool {
    forall|i: int| 0 <= i < s.len() ==> risk_in_range(#[trigger] s[i])
}

} // verus!
