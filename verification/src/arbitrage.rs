//! Formulation of the arbitrage portfolio choice as a linear program.
//!
//! For `n` instruments the program has `3 n` variables: for instrument `i`,
//! variable `3 i` is the net position, `3 i + 1` the long part and
//! `3 i + 2` the short part.  The rows are laid out as
//!
//! * `0 .. n` — one split row per instrument: `net = long - short`;
//! * `n` — the capital row: gross exposure priced at market plus cost stays
//!   within the capital budget;
//! * `n + 1 .. 3 n + 1` — two liquidity rows per instrument: the long and
//!   short parts stay within the liquidity limit;
//! * `3 n + 1 .. 5 n + 1` — two position-limit rows per instrument: the
//!   capital deployed in one name stays within `capital / n`;
//! * `5 n + 1` onward — one stochastic-dominance row per (risk level,
//!   market state) pair: the risk-weighted portfolio return is at least
//!   the risk-weighted benchmark return of the state.
//!
//! The objective maximizes the total expected arbitrage profit: the net
//! position of each instrument weighted by its mispricing net of cost.
//! [`find_arbitrage`] validates the inputs and is proved to return exactly
//! this program.

use vstd::arithmetic::div_mod::lemma_fundamental_div_mod_converse;
use vstd::prelude::*;

use crate::error::ArbitrageError;
use crate::fixed::CAPITAL_LIMIT;
use crate::fixed::MAX_ASSETS;
use crate::fixed::PRICE_LIMIT;
use crate::fixed::QUANTITY_LIMIT;
use crate::fixed::RISK_LIMIT;
use crate::fixed::SCALE;
use crate::fixed::TOLERANCE_LIMIT;
use crate::fixed::costs_in_range;
use crate::fixed::liquidities_in_range;
use crate::fixed::prices_in_range;
use crate::fixed::risks_in_range;
use crate::instrument::OptionData;
use crate::instrument::valid_instrument;
use crate::instrument::validate_instruments;
use crate::linear::CmpOp;
use crate::linear::COEFF_LIMIT;
use crate::linear::LinearConstraint;
use crate::linear::LinearProgram;
use crate::linear::MAX_TERMS;
use crate::linear::RHS_LIMIT;
use crate::linear::SLACK_LIMIT;
use crate::linear::dot;
use crate::linear::feasible;
use crate::linear::lemma_mul_bound;
use crate::linear::lemma_mul_nonneg;
use crate::linear::objective_value;
use crate::linear::row_holds;
use crate::linear::row_wf;
use crate::linear::term_wf;
use crate::linear::terms_wf;

verus! {

/// Caller-chosen numerical policy of one solve: the acceptance tolerance
/// for an inexact backend, and the least objective improvement over the
/// no-trade baseline that still counts as an arbitrage opportunity.
/// Both are fixed-point values scaled by [`SCALE`].
#[derive(Clone, Copy, Debug)]
pub struct SolveConfig {
    /// Slack allowed when re-checking a backend's assignment.
    pub tolerance: i64,
    /// Objective values at or below this margin are classified as
    /// "no arbitrage opportunity found".
    pub min_profit: i64,
}

impl SolveConfig {
    /// Both knobs are nonnegative and representable.
    pub open spec fn wf(self) -> bool {
        &&& 0 <= self.tolerance <= TOLERANCE_LIMIT
        &&& 0 <= self.min_profit <= PRICE_LIMIT
    }
}

/// The cost of moving one unit of instrument `i`: market price plus
/// transaction cost.
pub open spec fn unit_cost(market: Seq<i64>, costs: Seq<i64>, i: int) -> int {
    market[i] + costs[i]
}

/// The expected profit of holding one unit of instrument `i`: theoretical
/// price minus market price minus transaction cost.
pub open spec fn profit_coefficient(
    theo: Seq<i64>,
    market: Seq<i64>,
    costs: Seq<i64>,
    i: int,
) -> int {
    theo[i] - market[i] - costs[i]
}

/// The cap on capital deployed in a single name: `capital / n`, in the
/// scaled units of the position-limit rows.
pub open spec fn position_limit(capital: int, n: int) -> int {
    (capital * SCALE) / n
}

/// Row `i` is the split row of instrument `i`: `net - long + short = 0`,
/// within the tolerance.
pub open spec fn is_split_row(c: LinearConstraint, i: int, tol: int) -> bool {
    &&& c.terms@.len() == 3
    &&& c.terms@[0].0 == 3 * i && c.terms@[0].1 == 1
    &&& c.terms@[1].0 == 3 * i + 1 && c.terms@[1].1 == -1
    &&& c.terms@[2].0 == 3 * i + 2 && c.terms@[2].1 == 1
    &&& c.op == CmpOp::Equal
    &&& c.rhs == 0
    &&& c.slack == tol
}

/// The capital row: the gross exposure `sum (long_i + short_i) *
/// (market_i + cost_i)` stays within the capital budget.  Term `2 i`
/// prices the long part of instrument `i` and term `2 i + 1` its short
/// part; both sides are scaled by [`SCALE`].
pub open spec fn is_capital_row(
    c: LinearConstraint,
    market: Seq<i64>,
    costs: Seq<i64>,
    n: int,
    capital: int,
    tol: int,
) -> bool {
    &&& c.terms@.len() == 2 * n
    &&& forall|k: int| 0 <= k < c.terms@.len() ==> {
            let t = #[trigger] c.terms@[k];
            t.0 == 3 * (k / 2) + 1 + k % 2 && t.1 == unit_cost(market, costs, k / 2)
        }
    &&& c.op == CmpOp::LessEq
    &&& c.rhs == capital * SCALE
    &&& c.slack == tol * SCALE
}

/// A liquidity row: the long part (`side == 0`) or short part
/// (`side == 1`) of instrument `i` stays at or below the liquidity limit.
pub open spec fn is_liquidity_row(
    c: LinearConstraint,
    liquidity: Seq<i64>,
    i: int,
    side: int,
) -> bool {
    &&& c.terms@.len() == 1
    &&& c.terms@[0].0 == 3 * i + 1 + side
    &&& c.terms@[0].1 == 1
    &&& c.op == CmpOp::LessEq
    &&& c.rhs == liquidity[i]
    &&& c.slack == 0
}

/// A position-limit row: the capital deployed in instrument `i`,
/// `net_i * (market_i + cost_i)`, stays within `capital / n` from above
/// (`upper`) or below.
pub open spec fn is_position_limit_row(
    c: LinearConstraint,
    market: Seq<i64>,
    costs: Seq<i64>,
    capital: int,
    n: int,
    i: int,
    upper: bool,
    tol: int,
) -> bool {
    &&& c.terms@.len() == 1
    &&& c.terms@[0].0 == 3 * i
    &&& c.terms@[0].1 == unit_cost(market, costs, i)
    &&& if upper {
            c.op == CmpOp::LessEq && c.rhs == position_limit(capital, n)
        } else {
            c.op == CmpOp::GreaterEq && c.rhs == -position_limit(capital, n)
        }
    &&& c.slack == tol * SCALE
}

/// A stochastic-dominance row for risk level `r_idx` and market state
/// `s_idx`: the portfolio return weighted by the risk level is at least
/// the benchmark return of the state weighted by the risk level.
pub open spec fn is_dominance_row(
    c: LinearConstraint,
    market: Seq<i64>,
    costs: Seq<i64>,
    theo: Seq<i64>,
    bench: Seq<i64>,
    risks: Seq<i64>,
    n: int,
    r_idx: int,
    s_idx: int,
    tol: int,
) -> bool {
    &&& c.terms@.len() == n
    &&& forall|i: int| 0 <= i < c.terms@.len() ==> {
            let t = #[trigger] c.terms@[i];
            t.0 == 3 * i && t.1 == profit_coefficient(theo, market, costs, i) * risks[r_idx]
        }
    &&& c.op == CmpOp::GreaterEq
    &&& c.rhs == bench[s_idx] * risks[r_idx] * SCALE
    &&& c.slack == tol * risks[r_idx] * SCALE
}

/// The variable bounds of the program: for instrument `i` the net position
/// (variable `3 i`) ranges over `[-liquidity_i, liquidity_i]` and the long
/// and short parts (variables `3 i + 1` and `3 i + 2`) over
/// `[0, liquidity_i]`.
pub open spec fn are_position_bounds(
    lower: Seq<i64>,
    upper: Seq<i64>,
    liquidity: Seq<i64>,
    n: int,
) -> bool {
    &&& lower.len() == 3 * n
    &&& upper.len() == 3 * n
    &&& forall|j: int| 0 <= j < 3 * n
            ==> #[trigger] lower[j] == (if j % 3 == 0 { -(liquidity[j / 3] as int) } else { 0 })
    &&& forall|j: int| 0 <= j < 3 * n ==> #[trigger] upper[j] == liquidity[j / 3]
}

/// The objective: term `i` weighs the net position of instrument `i` by
/// its expected per-unit profit.
pub open spec fn is_arbitrage_objective(
    obj: Seq<(usize, i128)>,
    market: Seq<i64>,
    costs: Seq<i64>,
    theo: Seq<i64>,
    n: int,
) -> bool {
    &&& obj.len() == n
    &&& forall|i: int| 0 <= i < obj.len() ==> {
            let t = #[trigger] obj[i];
            t.0 == 3 * i && t.1 == profit_coefficient(theo, market, costs, i)
        }
}

/// The whole program of one arbitrage solve, as laid out in the module
/// description.
pub open spec fn is_arbitrage_program(
    lp: LinearProgram,
    market: Seq<i64>,
    costs: Seq<i64>,
    capital: int,
    liquidity: Seq<i64>,
    bench: Seq<i64>,
    risks: Seq<i64>,
    theo: Seq<i64>,
    tol: int,
) -> bool {
    let n = market.len() as int;
    let nr = risks.len() as int;
    let ns = bench.len() as int;
    &&& costs.len() == n && liquidity.len() == n && theo.len() == n
    &&& n >= 1 && nr >= 1 && ns >= 1
    &&& lp.num_vars == 3 * n
    &&& are_position_bounds(lp.lower@, lp.upper@, liquidity, n)
    &&& is_arbitrage_objective(lp.objective@, market, costs, theo, n)
    &&& lp.constraints@.len() == 5 * n + 1 + nr * ns
    &&& forall|r: int| 0 <= r < n ==> is_split_row(#[trigger] lp.constraints@[r], r, tol)
    &&& is_capital_row(lp.constraints@[n], market, costs, n, capital, tol)
    &&& forall|r: int| n + 1 <= r < 3 * n + 1
            ==> is_liquidity_row(
                #[trigger] lp.constraints@[r],
                liquidity,
                (r - (n + 1)) / 2,
                (r - (n + 1)) % 2,
            )
    &&& forall|r: int| 3 * n + 1 <= r < 5 * n + 1
            ==> is_position_limit_row(
                #[trigger] lp.constraints@[r],
                market,
                costs,
                capital,
                n,
                (r - (3 * n + 1)) / 2,
                (r - (3 * n + 1)) % 2 == 0,
                tol,
            )
    &&& forall|r: int| 5 * n + 1 <= r < 5 * n + 1 + nr * ns
            ==> is_dominance_row(
                #[trigger] lp.constraints@[r],
                market,
                costs,
                theo,
                bench,
                risks,
                n,
                (r - (5 * n + 1)) / ns,
                (r - (5 * n + 1)) % ns,
                tol,
            )
}

/// An input list does not match the instrument count, or a list that must
/// not be empty is empty.
pub open spec fn dimension_mismatch(
    n_data: int,
    n_market: int,
    n_costs: int,
    n_liquidity: int,
    n_theo: int,
    n_bench: int,
    n_risks: int,
) -> bool {
    ||| n_data == 0
    ||| n_market != n_data
    ||| n_costs != n_data
    ||| n_liquidity != n_data
    ||| n_theo != n_data
    ||| n_bench == 0
    ||| n_risks == 0
}

/// Creates the position variables of each instrument — net in
/// `[-liquidity_i, liquidity_i]`, long and short parts in
/// `[0, liquidity_i]` — and one split row `net = long - short` per
/// instrument.
fn initialize_weights(n: usize, liquidity: &Vec<i64>, tol: i64) -> (res: (
    Vec<i64>,
    Vec<i64>,
    Vec<LinearConstraint>,
))
    requires
        n == liquidity@.len(),
        n <= MAX_ASSETS,
        liquidities_in_range(liquidity@),
        0 <= tol <= TOLERANCE_LIMIT,
    ensures
        are_position_bounds(res.0@, res.1@, liquidity@, n as int),
        res.2@.len() == n,
        forall|i: int| 0 <= i < n ==> is_split_row(#[trigger] res.2@[i], i, tol as int),
        forall|i: int| 0 <= i < n ==> row_wf(#[trigger] res.2@[i], 3 * n as int),
{
    let mut lower: Vec<i64> = Vec::new();
    let mut upper: Vec<i64> = Vec::new();
    let mut rows: Vec<LinearConstraint> = Vec::new();
    let mut i: usize = 0;
    while i < n
        invariant
            i <= n,
            n == liquidity@.len(),
            n <= MAX_ASSETS,
            liquidities_in_range(liquidity@),
            0 <= tol <= TOLERANCE_LIMIT,
            lower@.len() == 3 * i,
            upper@.len() == 3 * i,
            rows@.len() == i,
            forall|j: int| 0 <= j < 3 * i
                ==> #[trigger] lower@[j] == (if j % 3 == 0 { -(liquidity@[j / 3] as int) } else { 0 }),
            forall|j: int| 0 <= j < 3 * i ==> #[trigger] upper@[j] == liquidity@[j / 3],
            forall|k: int| 0 <= k < i ==> is_split_row(#[trigger] rows@[k], k, tol as int),
            forall|k: int| 0 <= k < i ==> row_wf(#[trigger] rows@[k], 3 * n as int),
        decreases n - i,
    {
        let liq = liquidity[i];
        lower.push(-liq);
        lower.push(0);
        lower.push(0);
        upper.push(liq);
        upper.push(liq);
        upper.push(liq);
        let mut terms: Vec<(usize, i128)> = Vec::new();
        terms.push((3 * i, 1));
        terms.push((3 * i + 1, -1));
        terms.push((3 * i + 2, 1));
        let row = LinearConstraint {
            terms,
            op: CmpOp::Equal,
            rhs: 0,
            slack: tol as i128,
        };
        rows.push(row);
        proof {
            let ii = i as int;
            assert((3 * ii) % 3 == 0 && (3 * ii) / 3 == ii);
            assert((3 * ii + 1) % 3 == 1 && (3 * ii + 1) / 3 == ii);
            assert((3 * ii + 2) % 3 == 2 && (3 * ii + 2) / 3 == ii);
        }
        i = i + 1;
    }
    (lower, upper, rows)
}

/// Builds the objective: maximize the sum over instruments of the net
/// position times the expected per-unit profit.
fn build_objective(
    n: usize,
    market_prices: &Vec<i64>,
    theoretical_prices: &Vec<i64>,
    transaction_costs: &Vec<i64>,
) -> (obj: Vec<(usize, i128)>)
    requires
        n == market_prices@.len(),
        n == theoretical_prices@.len(),
        n == transaction_costs@.len(),
        n <= MAX_ASSETS,
        prices_in_range(market_prices@),
        prices_in_range(theoretical_prices@),
        costs_in_range(transaction_costs@),
    ensures
        is_arbitrage_objective(
            obj@,
            market_prices@,
            transaction_costs@,
            theoretical_prices@,
            n as int,
        ),
        terms_wf(obj@, 3 * n as int),
{
    let mut obj: Vec<(usize, i128)> = Vec::new();
    let mut i: usize = 0;
    while i < n
        invariant
            i <= n,
            n == market_prices@.len(),
            n == theoretical_prices@.len(),
            n == transaction_costs@.len(),
            n <= MAX_ASSETS,
            prices_in_range(market_prices@),
            prices_in_range(theoretical_prices@),
            costs_in_range(transaction_costs@),
            obj@.len() == i,
            forall|k: int| 0 <= k < i ==> {
                let t = #[trigger] obj@[k];
                t.0 == 3 * k
                    && t.1 == profit_coefficient(
                    theoretical_prices@,
                    market_prices@,
                    transaction_costs@,
                    k,
                )
            },
            forall|k: int| 0 <= k < i ==> term_wf(#[trigger] obj@[k], 3 * n as int),
        decreases n - i,
    {
        let coeff: i128 = theoretical_prices[i] as i128 - market_prices[i] as i128
            - transaction_costs[i] as i128;
        obj.push((3 * i, coeff));
        i = i + 1;
    }
    obj
}

/// Builds the capital row: the gross exposure priced at market plus cost,
/// over all instruments, stays within the capital budget.
fn compute_total_capital_constraint(
    n: usize,
    market_prices: &Vec<i64>,
    transaction_costs: &Vec<i64>,
    capital: i64,
    tol: i64,
) -> (c: LinearConstraint)
    requires
        n == market_prices@.len(),
        n == transaction_costs@.len(),
        n <= MAX_ASSETS,
        prices_in_range(market_prices@),
        costs_in_range(transaction_costs@),
        0 < capital <= CAPITAL_LIMIT,
        0 <= tol <= TOLERANCE_LIMIT,
    ensures
        is_capital_row(
            c,
            market_prices@,
            transaction_costs@,
            n as int,
            capital as int,
            tol as int,
        ),
        row_wf(c, 3 * n as int),
{
    let mut terms: Vec<(usize, i128)> = Vec::new();
    let mut i: usize = 0;
    while i < n
        invariant
            i <= n,
            n == market_prices@.len(),
            n == transaction_costs@.len(),
            n <= MAX_ASSETS,
            prices_in_range(market_prices@),
            costs_in_range(transaction_costs@),
            terms@.len() == 2 * i,
            forall|k: int| 0 <= k < 2 * i ==> {
                let t = #[trigger] terms@[k];
                t.0 == 3 * (k / 2) + 1 + k % 2
                    && t.1 == unit_cost(market_prices@, transaction_costs@, k / 2)
            },
            forall|k: int| 0 <= k < 2 * i ==> term_wf(#[trigger] terms@[k], 3 * n as int),
        decreases n - i,
    {
        let uc: i128 = market_prices[i] as i128 + transaction_costs[i] as i128;
        terms.push((3 * i + 1, uc));
        terms.push((3 * i + 2, uc));
        proof {
            let ii = i as int;
            assert((2 * ii) / 2 == ii && (2 * ii) % 2 == 0);
            assert((2 * ii + 1) / 2 == ii && (2 * ii + 1) % 2 == 1);
        }
        i = i + 1;
    }
    proof {
        lemma_mul_bound(capital as int, SCALE as int, CAPITAL_LIMIT as int, SCALE as int);
        lemma_mul_bound(tol as int, SCALE as int, TOLERANCE_LIMIT as int, SCALE as int);
    }
    LinearConstraint {
        terms,
        op: CmpOp::LessEq,
        rhs: capital as i128 * SCALE as i128,
        slack: tol as i128 * SCALE as i128,
    }
}

/// Appends the liquidity rows: for each instrument, its long part and its
/// short part stay at or below the liquidity limit.
fn add_liquidity_constraints(
    constraints: &mut Vec<LinearConstraint>,
    n: usize,
    liquidity: &Vec<i64>,
)
    requires
        n == liquidity@.len(),
        n <= MAX_ASSETS,
        liquidities_in_range(liquidity@),
    ensures
        final(constraints)@.len() == old(constraints)@.len() + 2 * n,
        forall|r: int| 0 <= r < old(constraints)@.len()
            ==> #[trigger] final(constraints)@[r] == old(constraints)@[r],
        forall|r: int|
            old(constraints)@.len() <= r < final(constraints)@.len() ==> {
                let c = #[trigger] final(constraints)@[r];
                let d = r - old(constraints)@.len();
                is_liquidity_row(c, liquidity@, d / 2, d % 2) && row_wf(c, 3 * n as int)
            },
{
    let ghost base = constraints@.len() as int;
    let mut i: usize = 0;
    while i < n
        invariant
            i <= n,
            n == liquidity@.len(),
            n <= MAX_ASSETS,
            liquidities_in_range(liquidity@),
            base == old(constraints)@.len(),
            constraints@.len() == base + 2 * i,
            forall|r: int| 0 <= r < base ==> #[trigger] constraints@[r] == old(constraints)@[r],
            forall|r: int|
                base <= r < constraints@.len() ==> {
                    let c = #[trigger] constraints@[r];
                    let d = r - base;
                    is_liquidity_row(c, liquidity@, d / 2, d % 2) && row_wf(c, 3 * n as int)
                },
        decreases n - i,
    {
        let liq = liquidity[i];
        let mut long_terms: Vec<(usize, i128)> = Vec::new();
        long_terms.push((3 * i + 1, 1));
        constraints.push(LinearConstraint {
            terms: long_terms,
            op: CmpOp::LessEq,
            rhs: liq as i128,
            slack: 0,
        });
        let mut short_terms: Vec<(usize, i128)> = Vec::new();
        short_terms.push((3 * i + 2, 1));
        constraints.push(LinearConstraint {
            terms: short_terms,
            op: CmpOp::LessEq,
            rhs: liq as i128,
            slack: 0,
        });
        proof {
            let ii = i as int;
            assert((2 * ii) / 2 == ii && (2 * ii) % 2 == 0);
            assert((2 * ii + 1) / 2 == ii && (2 * ii + 1) % 2 == 1);
        }
        i = i + 1;
    }
}

/// Appends the position-limit rows: the capital deployed in any single
/// instrument, `net_i * (market_i + cost_i)`, stays within
/// `capital / n` in either direction.
fn add_position_limit_constraints(
    constraints: &mut Vec<LinearConstraint>,
    n: usize,
    market_prices: &Vec<i64>,
    transaction_costs: &Vec<i64>,
    capital: i64,
    tol: i64,
)
    requires
        n == market_prices@.len(),
        n == transaction_costs@.len(),
        1 <= n <= MAX_ASSETS,
        prices_in_range(market_prices@),
        costs_in_range(transaction_costs@),
        0 < capital <= CAPITAL_LIMIT,
        0 <= tol <= TOLERANCE_LIMIT,
    ensures
        final(constraints)@.len() == old(constraints)@.len() + 2 * n,
        forall|r: int| 0 <= r < old(constraints)@.len()
            ==> #[trigger] final(constraints)@[r] == old(constraints)@[r],
        forall|r: int|
            old(constraints)@.len() <= r < final(constraints)@.len() ==> {
                let c = #[trigger] final(constraints)@[r];
                let d = r - old(constraints)@.len();
                is_position_limit_row(
                    c,
                    market_prices@,
                    transaction_costs@,
                    capital as int,
                    n as int,
                    d / 2,
                    d % 2 == 0,
                    tol as int,
                ) && row_wf(c, 3 * n as int)
            },
{
    proof {
        lemma_mul_bound(capital as int, SCALE as int, CAPITAL_LIMIT as int, SCALE as int);
    }
    let cap_scaled: u128 = capital as u128 * SCALE as u128;
    let limit_u: u128 = cap_scaled / (n as u128);
    proof {
        lemma_mul_nonneg(capital as int, SCALE as int);
        assert(limit_u <= cap_scaled) by (nonlinear_arith)
            requires
                limit_u == cap_scaled / (n as u128),
                cap_scaled >= 0,
                n >= 1,
        ;
    }
    let limit: i128 = limit_u as i128;
    proof {
        lemma_mul_bound(tol as int, SCALE as int, TOLERANCE_LIMIT as int, SCALE as int);
    }
    let slack: i128 = tol as i128 * SCALE as i128;
    let ghost base = constraints@.len() as int;
    let mut i: usize = 0;
    while i < n
        invariant
            i <= n,
            n == market_prices@.len(),
            n == transaction_costs@.len(),
            1 <= n <= MAX_ASSETS,
            prices_in_range(market_prices@),
            costs_in_range(transaction_costs@),
            0 < capital <= CAPITAL_LIMIT,
            0 <= tol <= TOLERANCE_LIMIT,
            limit == position_limit(capital as int, n as int),
            0 <= limit <= RHS_LIMIT,
            slack == tol * SCALE,
            0 <= slack <= SLACK_LIMIT,
            base == old(constraints)@.len(),
            constraints@.len() == base + 2 * i,
            forall|r: int| 0 <= r < base ==> #[trigger] constraints@[r] == old(constraints)@[r],
            forall|r: int|
                base <= r < constraints@.len() ==> {
                    let c = #[trigger] constraints@[r];
                    let d = r - base;
                    is_position_limit_row(
                        c,
                        market_prices@,
                        transaction_costs@,
                        capital as int,
                        n as int,
                        d / 2,
                        d % 2 == 0,
                        tol as int,
                    ) && row_wf(c, 3 * n as int)
                },
        decreases n - i,
    {
        let uc: i128 = market_prices[i] as i128 + transaction_costs[i] as i128;
        let mut upper_terms: Vec<(usize, i128)> = Vec::new();
        upper_terms.push((3 * i, uc));
        constraints.push(LinearConstraint {
            terms: upper_terms,
            op: CmpOp::LessEq,
            rhs: limit,
            slack,
        });
        let mut lower_terms: Vec<(usize, i128)> = Vec::new();
        lower_terms.push((3 * i, uc));
        constraints.push(LinearConstraint {
            terms: lower_terms,
            op: CmpOp::GreaterEq,
            rhs: -limit,
            slack,
        });
        proof {
            let ii = i as int;
            assert((2 * ii) / 2 == ii && (2 * ii) % 2 == 0);
            assert((2 * ii + 1) / 2 == ii && (2 * ii + 1) % 2 == 1);
        }
        i = i + 1;
    }
}

/// Appends the stochastic-dominance rows: for every risk level and every
/// market state, the risk-weighted portfolio return is at least the
/// risk-weighted benchmark return of the state.
fn add_stochastic_dominance_constraints(
    constraints: &mut Vec<LinearConstraint>,
    n: usize,
    market_prices: &Vec<i64>,
    transaction_costs: &Vec<i64>,
    theoretical_prices: &Vec<i64>,
    index_returns: &Vec<i64>,
    risk_levels: &Vec<i64>,
    tol: i64,
)
    requires
        n == market_prices@.len(),
        n == transaction_costs@.len(),
        n == theoretical_prices@.len(),
        n <= MAX_ASSETS,
        prices_in_range(market_prices@),
        costs_in_range(transaction_costs@),
        prices_in_range(theoretical_prices@),
        prices_in_range(index_returns@),
        risks_in_range(risk_levels@),
        0 <= tol <= TOLERANCE_LIMIT,
    ensures
        final(constraints)@.len() == old(constraints)@.len() + risk_levels@.len()
            * index_returns@.len(),
        forall|r: int| 0 <= r < old(constraints)@.len()
            ==> #[trigger] final(constraints)@[r] == old(constraints)@[r],
        forall|r: int|
            old(constraints)@.len() <= r < final(constraints)@.len() ==> {
                let c = #[trigger] final(constraints)@[r];
                let d = r - old(constraints)@.len();
                let ns = index_returns@.len() as int;
                is_dominance_row(
                    c,
                    market_prices@,
                    transaction_costs@,
                    theoretical_prices@,
                    index_returns@,
                    risk_levels@,
                    n as int,
                    d / ns,
                    d % ns,
                    tol as int,
                ) && row_wf(c, 3 * n as int)
            },
{
    let ghost base = constraints@.len() as int;
    let ghost ns = index_returns@.len() as int;
    let num_states = index_returns.len();
    let num_risks = risk_levels.len();
    let mut r_idx: usize = 0;
    while r_idx < num_risks
        invariant
            r_idx <= num_risks,
            n == market_prices@.len(),
            n == transaction_costs@.len(),
            n == theoretical_prices@.len(),
            n <= MAX_ASSETS,
            prices_in_range(market_prices@),
            costs_in_range(transaction_costs@),
            prices_in_range(theoretical_prices@),
            prices_in_range(index_returns@),
            risks_in_range(risk_levels@),
            0 <= tol <= TOLERANCE_LIMIT,
            num_states == index_returns@.len(),
            num_risks == risk_levels@.len(),
            ns == index_returns@.len() as int,
            base == old(constraints)@.len(),
            constraints@.len() == base + r_idx * ns,
            forall|r: int| 0 <= r < base ==> #[trigger] constraints@[r] == old(constraints)@[r],
            forall|r: int|
                base <= r < constraints@.len() ==> {
                    let c = #[trigger] constraints@[r];
                    let d = r - base;
                    is_dominance_row(
                        c,
                        market_prices@,
                        transaction_costs@,
                        theoretical_prices@,
                        index_returns@,
                        risk_levels@,
                        n as int,
                        d / ns,
                        d % ns,
                        tol as int,
                    ) && row_wf(c, 3 * n as int)
                },
        decreases num_risks - r_idx,
    {
        let risk = risk_levels[r_idx];
        proof {
            lemma_mul_bound(tol as int, risk as int, TOLERANCE_LIMIT as int, RISK_LIMIT as int);
            lemma_mul_nonneg(tol as int, risk as int);
        }
        let tol_risk: i128 = tol as i128 * risk as i128;
        proof {
            lemma_mul_bound(
                tol_risk as int,
                SCALE as int,
                TOLERANCE_LIMIT as int * RISK_LIMIT as int,
                SCALE as int,
            );
            lemma_mul_nonneg(tol_risk as int, SCALE as int);
        }
        let slack: i128 = tol_risk * SCALE as i128;
        let mut s_idx: usize = 0;
        while s_idx < num_states
            invariant
                s_idx <= num_states,
                r_idx < num_risks,
                n == market_prices@.len(),
                n == transaction_costs@.len(),
                n == theoretical_prices@.len(),
                n <= MAX_ASSETS,
                prices_in_range(market_prices@),
                costs_in_range(transaction_costs@),
                prices_in_range(theoretical_prices@),
                prices_in_range(index_returns@),
                risks_in_range(risk_levels@),
                0 <= tol <= TOLERANCE_LIMIT,
                num_states == index_returns@.len(),
                num_risks == risk_levels@.len(),
                ns == index_returns@.len() as int,
                risk == risk_levels@[r_idx as int],
                slack == tol * risk_levels@[r_idx as int] * SCALE,
                0 <= slack <= SLACK_LIMIT,
                base == old(constraints)@.len(),
                constraints@.len() == base + r_idx * ns + s_idx,
                forall|r: int| 0 <= r < base ==> #[trigger] constraints@[r] == old(constraints)@[r],
                forall|r: int|
                    base <= r < constraints@.len() ==> {
                        let c = #[trigger] constraints@[r];
                        let d = r - base;
                        is_dominance_row(
                            c,
                            market_prices@,
                            transaction_costs@,
                            theoretical_prices@,
                            index_returns@,
                            risk_levels@,
                            n as int,
                            d / ns,
                            d % ns,
                            tol as int,
                        ) && row_wf(c, 3 * n as int)
                    },
            decreases num_states - s_idx,
        {
            let mut terms: Vec<(usize, i128)> = Vec::new();
            let mut i: usize = 0;
            while i < n
                invariant
                    i <= n,
                    n == market_prices@.len(),
                    n == transaction_costs@.len(),
                    n == theoretical_prices@.len(),
                    n <= MAX_ASSETS,
                    prices_in_range(market_prices@),
                    costs_in_range(transaction_costs@),
                    prices_in_range(theoretical_prices@),
                    risks_in_range(risk_levels@),
                    r_idx < risk_levels@.len(),
                    risk == risk_levels@[r_idx as int],
                    terms@.len() == i,
                    forall|k: int| 0 <= k < i ==> {
                        let t = #[trigger] terms@[k];
                        t.0 == 3 * k
                            && t.1 == profit_coefficient(
                            theoretical_prices@,
                            market_prices@,
                            transaction_costs@,
                            k,
                        ) * risk_levels@[r_idx as int]
                    },
                    forall|k: int| 0 <= k < i ==> term_wf(#[trigger] terms@[k], 3 * n as int),
                decreases n - i,
            {
                let diff: i128 = theoretical_prices[i] as i128 - market_prices[i] as i128
                    - transaction_costs[i] as i128;
                proof {
                    lemma_mul_bound(
                        diff as int,
                        risk as int,
                        3 * PRICE_LIMIT as int,
                        RISK_LIMIT as int,
                    );
                }
                let coeff: i128 = diff * risk as i128;
                terms.push((3 * i, coeff));
                i = i + 1;
            }
            let bench_v = index_returns[s_idx];
            proof {
                lemma_mul_bound(bench_v as int, risk as int, PRICE_LIMIT as int, RISK_LIMIT as int);
            }
            let bench_risk: i128 = bench_v as i128 * risk as i128;
            proof {
                lemma_mul_bound(
                    bench_risk as int,
                    SCALE as int,
                    PRICE_LIMIT as int * RISK_LIMIT as int,
                    SCALE as int,
                );
            }
            let rhs: i128 = bench_risk * SCALE as i128;
            constraints.push(LinearConstraint {
                terms,
                op: CmpOp::GreaterEq,
                rhs,
                slack,
            });
            proof {
                let q = constraints@.len() - 1 - base;
                assert(q == r_idx * ns + s_idx);
                lemma_fundamental_div_mod_converse(q, ns, r_idx as int, s_idx as int);
            }
            s_idx = s_idx + 1;
        }
        proof {
            assert((r_idx + 1) * ns == r_idx * ns + ns) by (nonlinear_arith);
        }
        r_idx = r_idx + 1;
    }
    proof {
        assert(num_risks * ns == risk_levels@.len() * index_returns@.len()) by (nonlinear_arith)
            requires
                num_risks == risk_levels@.len(),
                ns == index_returns@.len() as int,
        ;
    }
}

/// Validates the inputs of one arbitrage solve and formulates its linear
/// program.
///
/// Fails with `DimensionMismatch` exactly when an input list does not
/// match the instrument count or a list that must not be empty is empty,
/// and with `InvalidInstrument` exactly when some instrument is malformed.
/// On success the returned program is exactly the arbitrage formulation of
/// the inputs ([`is_arbitrage_program`]); any LP backend can then maximize
/// it and hand the assignment to
/// [`crate::solution::resolve_solution`].
pub fn find_arbitrage(
    market_prices: &Vec<i64>,
    transaction_costs: &Vec<i64>,
    capital: i64,
    liquidity: &Vec<i64>,
    index_returns: &Vec<i64>,
    risk_levels: &Vec<i64>,
    theoretical_prices: &Vec<i64>,
    option_data: &Vec<OptionData>,
    config: &SolveConfig,
) -> (result: Result<LinearProgram, ArbitrageError>)
    requires
        option_data@.len() <= MAX_ASSETS,
        0 < capital <= CAPITAL_LIMIT,
        prices_in_range(market_prices@),
        costs_in_range(transaction_costs@),
        liquidities_in_range(liquidity@),
        prices_in_range(index_returns@),
        risks_in_range(risk_levels@),
        prices_in_range(theoretical_prices@),
        config.wf(),
    ensures
        (result == Result::<LinearProgram, ArbitrageError>::Err(
            ArbitrageError::DimensionMismatch,
        )) <==> dimension_mismatch(
            option_data@.len() as int,
            market_prices@.len() as int,
            transaction_costs@.len() as int,
            liquidity@.len() as int,
            theoretical_prices@.len() as int,
            index_returns@.len() as int,
            risk_levels@.len() as int,
        ),
        !dimension_mismatch(
            option_data@.len() as int,
            market_prices@.len() as int,
            transaction_costs@.len() as int,
            liquidity@.len() as int,
            theoretical_prices@.len() as int,
            index_returns@.len() as int,
            risk_levels@.len() as int,
        ) ==> ((result == Result::<LinearProgram, ArbitrageError>::Err(
            ArbitrageError::InvalidInstrument,
        )) <==> exists|i: int|
            0 <= i < option_data@.len() && !valid_instrument(#[trigger] option_data@[i])),
        (result is Ok) <==> (!dimension_mismatch(
            option_data@.len() as int,
            market_prices@.len() as int,
            transaction_costs@.len() as int,
            liquidity@.len() as int,
            theoretical_prices@.len() as int,
            index_returns@.len() as int,
            risk_levels@.len() as int,
        ) && forall|i: int|
            0 <= i < option_data@.len() ==> valid_instrument(#[trigger] option_data@[i])),
        result matches Ok(lp) ==> lp.wf() && is_arbitrage_program(
            lp,
            market_prices@,
            transaction_costs@,
            capital as int,
            liquidity@,
            index_returns@,
            risk_levels@,
            theoretical_prices@,
            config.tolerance as int,
        ),
{
    let n = option_data.len();
    if n == 0 || market_prices.len() != n || transaction_costs.len() != n || liquidity.len() != n
        || theoretical_prices.len() != n || index_returns.len() == 0 || risk_levels.len() == 0 {
        return Err(ArbitrageError::DimensionMismatch);
    }
    if !validate_instruments(option_data) {
        return Err(ArbitrageError::InvalidInstrument);
    }
    let tol = config.tolerance;

    let (lower, upper, mut constraints) = initialize_weights(n, liquidity, tol);
    let objective = build_objective(n, market_prices, theoretical_prices, transaction_costs);
    let capital_row = compute_total_capital_constraint(
        n,
        market_prices,
        transaction_costs,
        capital,
        tol,
    );
    constraints.push(capital_row);
    let ghost after_capital = constraints@;
    add_liquidity_constraints(&mut constraints, n, liquidity);
    let ghost after_liquidity = constraints@;
    add_position_limit_constraints(
        &mut constraints,
        n,
        market_prices,
        transaction_costs,
        capital,
        tol,
    );
    let ghost after_limits = constraints@;
    add_stochastic_dominance_constraints(
        &mut constraints,
        n,
        market_prices,
        transaction_costs,
        theoretical_prices,
        index_returns,
        risk_levels,
        tol,
    );

    let lp = LinearProgram { num_vars: 3 * n, lower, upper, objective, constraints };

    proof {
        let nn = n as int;
        let nr = risk_levels@.len() as int;
        let ns = index_returns@.len() as int;
        let rows = lp.constraints@;
        assert(after_capital.len() == nn + 1);
        assert(after_liquidity.len() == 3 * nn + 1);
        assert(after_limits.len() == 5 * nn + 1);
        assert(rows.len() == 5 * nn + 1 + nr * ns);
        assert forall|r: int| 0 <= r < after_limits.len() implies rows[r] == after_limits[r] by {}
        assert forall|r: int| 0 <= r < after_liquidity.len() implies rows[r]
            == after_liquidity[r] by {
            assert(after_limits[r] == after_liquidity[r]);
        }
        assert forall|r: int| 0 <= r < after_capital.len() implies rows[r] == after_capital[r] by {
            assert(after_liquidity[r] == after_capital[r]);
        }
        assert forall|r: int| 0 <= r < nn implies is_split_row(rows[r], r, tol as int) && row_wf(
            rows[r],
            3 * nn,
        ) by {
            assert(rows[r] == after_capital[r]);
        }
        assert(is_capital_row(
            rows[nn],
            market_prices@,
            transaction_costs@,
            nn,
            capital as int,
            tol as int,
        ) && row_wf(rows[nn], 3 * nn));
        assert forall|r: int| nn + 1 <= r < 3 * nn + 1 implies is_liquidity_row(
            rows[r],
            liquidity@,
            (r - (nn + 1)) / 2,
            (r - (nn + 1)) % 2,
        ) && row_wf(rows[r], 3 * nn) by {
            assert(rows[r] == after_liquidity[r]);
        }
        assert forall|r: int| 3 * nn + 1 <= r < 5 * nn + 1 implies is_position_limit_row(
            rows[r],
            market_prices@,
            transaction_costs@,
            capital as int,
            nn,
            (r - (3 * nn + 1)) / 2,
            (r - (3 * nn + 1)) % 2 == 0,
            tol as int,
        ) && row_wf(rows[r], 3 * nn) by {
            assert(rows[r] == after_limits[r]);
        }
        assert forall|j: int| 0 <= j < 3 * nn implies -QUANTITY_LIMIT <= #[trigger] lp.lower@[j]
            <= QUANTITY_LIMIT && -QUANTITY_LIMIT <= #[trigger] lp.upper@[j] <= QUANTITY_LIMIT by {
            assert(0 <= j / 3 < nn);
            assert(0 <= liquidity@[j / 3] <= QUANTITY_LIMIT);
        }
        assert forall|r: int| 0 <= r < rows.len() implies row_wf(#[trigger] rows[r], 3 * nn) by {}
    }
    Ok(lp)
}

/// The gross capital deployed by the first `n` instruments of an
/// assignment: the long and short parts of each instrument, priced at
/// market plus transaction cost.
pub open spec fn gross_capital(market: Seq<i64>, costs: Seq<i64>, x: Seq<i64>, n: int) -> int
    decreases n,
{
    if n <= 0 {
        0
    } else {
        gross_capital(market, costs, x, n - 1) + (x[3 * (n - 1) + 1] + x[3 * (n - 1) + 2])
            * unit_cost(market, costs, n - 1)
    }
}

/// The capital row's dot product is exactly the gross capital of the
/// assignment.
proof fn lemma_capital_row_dot(
    terms: Seq<(usize, i128)>,
    market: Seq<i64>,
    costs: Seq<i64>,
    x: Seq<i64>,
    k: int,
)
    requires
        0 <= 2 * k <= terms.len(),
        forall|j: int| 0 <= j < terms.len() ==> {
            let t = #[trigger] terms[j];
            t.0 == 3 * (j / 2) + 1 + j % 2 && t.1 == unit_cost(market, costs, j / 2)
        },
    ensures
        dot(terms.take(2 * k), x) == gross_capital(market, costs, x, k),
    decreases k,
{
    if k <= 0 {
        assert(terms.take(2 * k) =~= Seq::<(usize, i128)>::empty());
    } else {
        lemma_capital_row_dot(terms, market, costs, x, k - 1);
        let s2 = terms.take(2 * k);
        let s1 = terms.take(2 * k - 1);
        let s0 = terms.take(2 * k - 2);
        assert(s2.drop_last() =~= s1);
        assert(s1.drop_last() =~= s0);
        assert(s2.last() == terms[2 * k - 1]);
        assert(s1.last() == terms[2 * k - 2]);
        assert((2 * k - 1) / 2 == k - 1 && (2 * k - 1) % 2 == 1);
        assert((2 * k - 2) / 2 == k - 1 && (2 * k - 2) % 2 == 0);
        let uc = unit_cost(market, costs, k - 1);
        let long = x[3 * (k - 1) + 1] as int;
        let short = x[3 * (k - 1) + 2] as int;
        assert(terms[2 * k - 1].0 == 3 * (k - 1) + 2 && terms[2 * k - 1].1 == uc);
        assert(terms[2 * k - 2].0 == 3 * (k - 1) + 1 && terms[2 * k - 2].1 == uc);
        assert(dot(s2, x) == dot(s1, x) + uc * short);
        assert(dot(s1, x) == dot(s0, x) + uc * long);
        assert(dot(s0, x) == gross_capital(market, costs, x, k - 1));
        assert((long + short) * uc == uc * long + uc * short) by (nonlinear_arith);
        assert(gross_capital(market, costs, x, k) == gross_capital(market, costs, x, k - 1) + (long
            + short) * uc);
    }
}

/// The total expected arbitrage profit of an assignment over the first
/// `n` instruments: the net position of each instrument times its profit
/// per unit.
pub open spec fn portfolio_return(
    market: Seq<i64>,
    costs: Seq<i64>,
    theo: Seq<i64>,
    x: Seq<i64>,
    n: int,
) -> int
    decreases n,
{
    if n <= 0 {
        0
    } else {
        portfolio_return(market, costs, theo, x, n - 1) + x[3 * (n - 1)] * profit_coefficient(
            theo,
            market,
            costs,
            n - 1,
        )
    }
}

/// The objective row's dot product is exactly the portfolio return.
proof fn lemma_objective_dot(
    obj: Seq<(usize, i128)>,
    market: Seq<i64>,
    costs: Seq<i64>,
    theo: Seq<i64>,
    x: Seq<i64>,
    k: int,
)
    requires
        0 <= k <= obj.len(),
        forall|i: int| 0 <= i < obj.len() ==> {
            let t = #[trigger] obj[i];
            t.0 == 3 * i && t.1 == profit_coefficient(theo, market, costs, i)
        },
    ensures
        dot(obj.take(k), x) == portfolio_return(market, costs, theo, x, k),
    decreases k,
{
    if k <= 0 {
        assert(obj.take(k) =~= Seq::<(usize, i128)>::empty());
    } else {
        lemma_objective_dot(obj, market, costs, theo, x, k - 1);
        assert(obj.take(k).drop_last() =~= obj.take(k - 1));
        assert(obj.take(k).last() == obj[k - 1]);
        let coeff = profit_coefficient(theo, market, costs, k - 1);
        let pos = x[3 * (k - 1)] as int;
        assert(coeff * pos == pos * coeff) by (nonlinear_arith);
    }
}

/// A dominance row's dot product is exactly the portfolio return scaled
/// by the row's risk level.
proof fn lemma_dominance_dot(
    terms: Seq<(usize, i128)>,
    market: Seq<i64>,
    costs: Seq<i64>,
    theo: Seq<i64>,
    risk: int,
    x: Seq<i64>,
    k: int,
)
    requires
        0 <= k <= terms.len(),
        forall|i: int| 0 <= i < terms.len() ==> {
            let t = #[trigger] terms[i];
            t.0 == 3 * i && t.1 == profit_coefficient(theo, market, costs, i) * risk
        },
    ensures
        dot(terms.take(k), x) == portfolio_return(market, costs, theo, x, k) * risk,
    decreases k,
{
    if k <= 0 {
        assert(terms.take(k) =~= Seq::<(usize, i128)>::empty());
        assert(0 * risk == 0);
    } else {
        lemma_dominance_dot(terms, market, costs, theo, risk, x, k - 1);
        assert(terms.take(k).drop_last() =~= terms.take(k - 1));
        assert(terms.take(k).last() == terms[k - 1]);
        let prev = portfolio_return(market, costs, theo, x, k - 1);
        let coeff = profit_coefficient(theo, market, costs, k - 1);
        let pos = x[3 * (k - 1)] as int;
        assert((prev + pos * coeff) * risk == prev * risk + (coeff * risk) * pos)
            by (nonlinear_arith);
    }
}

/// The objective of the arbitrage program values an assignment at exactly
/// its total expected arbitrage profit — the quantity the solve
/// maximizes and the classification of the outcome compares against the
/// no-trade baseline.
pub proof fn lemma_objective_is_expected_profit(
    lp: LinearProgram,
    market: Seq<i64>,
    costs: Seq<i64>,
    capital: int,
    liquidity: Seq<i64>,
    bench: Seq<i64>,
    risks: Seq<i64>,
    theo: Seq<i64>,
    tol: int,
    x: Seq<i64>,
)
    requires
        is_arbitrage_program(lp, market, costs, capital, liquidity, bench, risks, theo, tol),
    ensures
        objective_value(lp, x) == portfolio_return(
            market,
            costs,
            theo,
            x,
            market.len() as int,
        ),
{
    let n = market.len() as int;
    lemma_objective_dot(lp.objective@, market, costs, theo, x, n);
    assert(lp.objective@.take(n) =~= lp.objective@);
}

/// Stochastic-dominance invariant of an accepted solution: at every
/// declared risk level and market state, the risk-weighted portfolio
/// return is at least the risk-weighted benchmark return of the state,
/// up to the tolerance of the solve.
pub proof fn lemma_accepted_solution_dominates_benchmark(
    lp: LinearProgram,
    market: Seq<i64>,
    costs: Seq<i64>,
    capital: int,
    liquidity: Seq<i64>,
    bench: Seq<i64>,
    risks: Seq<i64>,
    theo: Seq<i64>,
    tol: int,
    x: Seq<i64>,
    r_idx: int,
    s_idx: int,
)
    requires
        is_arbitrage_program(lp, market, costs, capital, liquidity, bench, risks, theo, tol),
        feasible(lp, x),
        0 <= r_idx < risks.len(),
        0 <= s_idx < bench.len(),
    ensures
        portfolio_return(market, costs, theo, x, market.len() as int) * risks[r_idx]
            >= bench[s_idx] * risks[r_idx] * SCALE - tol * risks[r_idx] * SCALE,
{
    let n = market.len() as int;
    let nr = risks.len() as int;
    let ns = bench.len() as int;
    let d = r_idx * ns + s_idx;
    assert(0 <= d && d < nr * ns) by (nonlinear_arith)
        requires
            d == r_idx * ns + s_idx,
            0 <= r_idx < nr,
            0 <= s_idx < ns,
    ;
    let row_index = 5 * n + 1 + d;
    let c = lp.constraints@[row_index];
    lemma_fundamental_div_mod_converse(d, ns, r_idx, s_idx);
    assert(is_dominance_row(c, market, costs, theo, bench, risks, n, r_idx, s_idx, tol));
    assert(row_holds(c, x));
    lemma_dominance_dot(c.terms@, market, costs, theo, risks[r_idx] as int, x, n);
    assert(c.terms@.take(n) =~= c.terms@);
}

/// Position-limit invariant of an accepted solution: the capital deployed
/// in any single instrument — its net position priced at market plus
/// cost — stays within `capital / n` in either direction, up to the
/// tolerance of the solve.
pub proof fn lemma_accepted_solution_respects_position_limit(
    lp: LinearProgram,
    market: Seq<i64>,
    costs: Seq<i64>,
    capital: int,
    liquidity: Seq<i64>,
    bench: Seq<i64>,
    risks: Seq<i64>,
    theo: Seq<i64>,
    tol: int,
    x: Seq<i64>,
    i: int,
)
    requires
        is_arbitrage_program(lp, market, costs, capital, liquidity, bench, risks, theo, tol),
        feasible(lp, x),
        0 <= i < market.len(),
    ensures
        x[3 * i] * unit_cost(market, costs, i) <= position_limit(capital, market.len() as int)
            + tol * SCALE,
        x[3 * i] * unit_cost(market, costs, i) >= -position_limit(capital, market.len() as int)
            - tol * SCALE,
{
    let n = market.len() as int;
    let upper_index = 3 * n + 1 + 2 * i;
    let lower_index = 3 * n + 1 + 2 * i + 1;
    assert((2 * i) / 2 == i && (2 * i) % 2 == 0);
    assert((2 * i + 1) / 2 == i && (2 * i + 1) % 2 == 1);
    let cu = lp.constraints@[upper_index];
    let cl = lp.constraints@[lower_index];
    assert(is_position_limit_row(cu, market, costs, capital, n, i, true, tol));
    assert(is_position_limit_row(cl, market, costs, capital, n, i, false, tol));
    assert(row_holds(cu, x));
    assert(row_holds(cl, x));
    reveal_with_fuel(dot, 2);
    assert(cu.terms@.drop_last() =~= Seq::<(usize, i128)>::empty());
    assert(cl.terms@.drop_last() =~= Seq::<(usize, i128)>::empty());
    let uc = unit_cost(market, costs, i);
    let pos = x[3 * i] as int;
    assert(dot(cu.terms@, x) == uc * pos);
    assert(dot(cl.terms@, x) == uc * pos);
    assert(uc * pos == pos * uc) by (nonlinear_arith);
}

/// Equality invariant of an accepted solution: for every instrument the
/// net position equals the long part minus the short part, within the
/// tolerance of the solve.
pub proof fn lemma_accepted_solution_splits_consistently(
    lp: LinearProgram,
    market: Seq<i64>,
    costs: Seq<i64>,
    capital: int,
    liquidity: Seq<i64>,
    bench: Seq<i64>,
    risks: Seq<i64>,
    theo: Seq<i64>,
    tol: int,
    x: Seq<i64>,
    i: int,
)
    requires
        is_arbitrage_program(lp, market, costs, capital, liquidity, bench, risks, theo, tol),
        feasible(lp, x),
        0 <= i < market.len(),
    ensures
        -tol <= x[3 * i] - (x[3 * i + 1] - x[3 * i + 2]) <= tol,
{
    let c = lp.constraints@[i];
    assert(is_split_row(c, i, tol));
    assert(row_holds(c, x));
    reveal_with_fuel(dot, 4);
    assert(c.terms@.drop_last() =~= c.terms@.take(2));
    assert(c.terms@.take(2).drop_last() =~= c.terms@.take(1));
    assert(c.terms@.take(1).drop_last() =~= Seq::<(usize, i128)>::empty());
    assert(dot(c.terms@, x) == x[3 * i] - x[3 * i + 1] + x[3 * i + 2]);
}

/// Bound invariant of an accepted solution: for every instrument the net
/// position stays within the liquidity limit, and the long and short
/// parts are nonnegative and stay within it too.
pub proof fn lemma_accepted_solution_respects_liquidity(
    lp: LinearProgram,
    market: Seq<i64>,
    costs: Seq<i64>,
    capital: int,
    liquidity: Seq<i64>,
    bench: Seq<i64>,
    risks: Seq<i64>,
    theo: Seq<i64>,
    tol: int,
    x: Seq<i64>,
    i: int,
)
    requires
        is_arbitrage_program(lp, market, costs, capital, liquidity, bench, risks, theo, tol),
        feasible(lp, x),
        0 <= i < market.len(),
    ensures
        -liquidity[i] <= x[3 * i] <= liquidity[i],
        0 <= x[3 * i + 1] <= liquidity[i],
        0 <= x[3 * i + 2] <= liquidity[i],
{
    assert((3 * i) % 3 == 0 && (3 * i) / 3 == i);
    assert((3 * i + 1) % 3 == 1 && (3 * i + 1) / 3 == i);
    assert((3 * i + 2) % 3 == 2 && (3 * i + 2) / 3 == i);
    assert(lp.lower@[3 * i] == -(liquidity[i] as int) && lp.upper@[3 * i] == liquidity[i]);
    assert(lp.lower@[3 * i + 1] == 0 && lp.upper@[3 * i + 1] == liquidity[i]);
    assert(lp.lower@[3 * i + 2] == 0 && lp.upper@[3 * i + 2] == liquidity[i]);
    assert(lp.lower@[3 * i] <= x[3 * i] <= lp.upper@[3 * i]);
    assert(lp.lower@[3 * i + 1] <= x[3 * i + 1] <= lp.upper@[3 * i + 1]);
    assert(lp.lower@[3 * i + 2] <= x[3 * i + 2] <= lp.upper@[3 * i + 2]);
}

/// Capital invariant of an accepted solution: the gross exposure —
/// long plus short parts of every instrument, priced at market plus
/// transaction cost — stays within the capital budget, up to the
/// tolerance of the solve.
pub proof fn lemma_accepted_solution_respects_capital(
    lp: LinearProgram,
    market: Seq<i64>,
    costs: Seq<i64>,
    capital: int,
    liquidity: Seq<i64>,
    bench: Seq<i64>,
    risks: Seq<i64>,
    theo: Seq<i64>,
    tol: int,
    x: Seq<i64>,
)
    requires
        is_arbitrage_program(lp, market, costs, capital, liquidity, bench, risks, theo, tol),
        feasible(lp, x),
    ensures
        gross_capital(market, costs, x, market.len() as int) <= (capital + tol) * SCALE,
{
    let n = market.len() as int;
    let c = lp.constraints@[n];
    assert(is_capital_row(c, market, costs, n, capital, tol));
    assert(row_holds(c, x));
    lemma_capital_row_dot(c.terms@, market, costs, x, n);
    assert(c.terms@.take(2 * n) =~= c.terms@);
}

} // verus!
