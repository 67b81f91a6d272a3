//! Option instruments, their validity, and the pure pricing pieces:
//! expiry-boundary (intrinsic) values and the mispricing signal.

use vstd::prelude::*;

use crate::fixed::price_in_range;

verus! {

/// Whether an option is a call or a put.
#[derive(Clone, Copy, Debug, PartialEq, Eq, Structural)]
pub enum OptionKind {
    Call,
    Put,
}

/// One priced option instrument.  All scalar fields are fixed-point values
/// scaled by [`crate::fixed::SCALE`].
#[derive(Clone, Debug)]
pub struct OptionData {
    /// Instrument name, unique within a run.
    pub name: String,
    /// Underlying asset price (S).
    pub s: i64,
    /// Strike price (K).
    pub k: i64,
    /// Time to maturity in years (T).
    pub t: i64,
    /// Risk-free interest rate (r).
    pub r: i64,
    /// Volatility of the underlying asset (sigma).
    pub sigma: i64,
    /// Option kind: call or put.
    pub option_type: OptionKind,
    /// Quoted market price of the option.
    pub market_price: i64,
}

/// An instrument is well formed when its underlying and strike prices are
/// positive and its time to maturity and volatility are nonnegative.
pub open spec fn valid_instrument(o: OptionData) -> bool {
    o.s > 0 && o.k > 0 && o.t >= 0 && o.sigma >= 0
}

/// Checks that every instrument of the run is well formed.
pub fn validate_instruments(option_data: &Vec<OptionData>) -> (r: bool)
    ensures
        r == forall|i: int| 0 <= i < option_data@.len() ==> valid_instrument(#[trigger] option_data@[i]),
{
    let n = option_data.len();
    let mut i: usize = 0;
    while i < n
        invariant
            i <= n,
            n == option_data@.len(),
            forall|j: int| 0 <= j < i ==> valid_instrument(#[trigger] option_data@[j]),
        decreases n - i,
    {
        let o = &option_data[i];
        if !(o.s > 0 && o.k > 0 && o.t >= 0 && o.sigma >= 0) {
            return false;
        }
        i = i + 1;
    }
    true
}

/// The value of an option at expiry: `max(s - k, 0)` for a call and
/// `max(k - s, 0)` for a put.
pub open spec fn intrinsic_value_spec(kind: OptionKind, s: int, k: int) -> int {
    match kind {
        OptionKind::Call => if s - k > 0 { s - k } else { 0 },
        OptionKind::Put => if k - s > 0 { k - s } else { 0 },
    }
}

/// The price of an option whose time to maturity is zero: its intrinsic
/// value, exactly.
pub fn intrinsic_value(kind: OptionKind, s: i64, k: i64) -> (v: i64)
    requires
        price_in_range(s),
        price_in_range(k),
    ensures
        v == intrinsic_value_spec(kind, s as int, k as int),
{
    match kind {
        OptionKind::Call => if s - k > 0 { s - k } else { 0 },
        OptionKind::Put => if k - s > 0 { k - s } else { 0 },
    }
}

/// The mispricing signal of one instrument: theoretical price minus quoted
/// market price.
pub fn mispricing(theoretical_price: i64, market_price: i64) -> (signal: i64)
    requires
        price_in_range(theoretical_price),
        price_in_range(market_price),
    ensures
        signal == theoretical_price - market_price,
{
    theoretical_price - market_price
}

} // verus!
