//! Acceptance and interpretation of a backend's solution.
//!
//! The LP backend is outside the verified library, so nothing it returns
//! is trusted: [`resolve_solution`] re-checks every declared bound and row
//! of the program on the returned assignment, classifies the objective
//! against the no-trade baseline, and only then extracts the net
//! positions.  [`construct_portfolio`] pairs those positions with the
//! instrument names, preserving the input order.

use vstd::prelude::*;

use crate::arbitrage::SolveConfig;
use crate::arbitrage::is_arbitrage_program;
use crate::error::ArbitrageError;
use crate::fixed::PRICE_LIMIT;
use crate::fixed::SCALE;
use crate::instrument::OptionData;
use crate::linear::LinearProgram;
use crate::linear::check_assignment;
use crate::linear::evaluate_objective;
use crate::linear::feasible;
use crate::linear::lemma_dot_zero_coeffs;
use crate::linear::lemma_mul_bound;
use crate::linear::lemma_mul_nonneg;
use crate::linear::objective_value;

verus! {

/// The portfolio produced by one successful solve: one `(instrument name,
/// net position)` pair per instrument, in input order.
#[derive(Clone, Debug)]
pub struct Portfolio {
    /// Portfolio holdings as a vector of (option name, position size).
    pub holdings: Vec<(String, i64)>,
}

/// An objective value counts as an arbitrage opportunity when it beats
/// the no-trade baseline by more than the configured margin.
pub open spec fn is_opportunity(objective: int, config: SolveConfig) -> bool {
    objective > config.min_profit * SCALE
}

/// Re-checks a backend's assignment against the program and interprets
/// the outcome.
///
/// An assignment that violates a declared bound or row is rejected as
/// `NumericalFailure`; a feasible assignment whose objective does not
/// beat the no-trade baseline by more than the configured margin is the
/// distinguished `NoArbitrageOpportunity` outcome; otherwise the net
/// positions (one per instrument, in input order) are returned.
pub fn resolve_solution(
    lp: &LinearProgram,
    assignment: &Vec<i64>,
    config: &SolveConfig,
) -> (result: Result<Vec<i64>, ArbitrageError>)
    requires
        lp.wf(),
        lp.num_vars % 3 == 0,
        config.wf(),
    ensures
        !feasible(*lp, assignment@) ==> result == Result::<Vec<i64>, ArbitrageError>::Err(
            ArbitrageError::NumericalFailure,
        ),
        feasible(*lp, assignment@) && !is_opportunity(objective_value(*lp, assignment@), *config)
            ==> result == Result::<Vec<i64>, ArbitrageError>::Err(
            ArbitrageError::NoArbitrageOpportunity,
        ),
        feasible(*lp, assignment@) && is_opportunity(objective_value(*lp, assignment@), *config)
            ==> result is Ok,
        result matches Ok(positions) ==> {
            &&& positions@.len() == lp.num_vars / 3
            &&& forall|i: int| 0 <= i < positions@.len()
                    ==> #[trigger] positions@[i] == assignment@[3 * i]
        },
{
    if !check_assignment(lp, assignment) {
        return Err(ArbitrageError::NumericalFailure);
    }
    let objective = evaluate_objective(lp, assignment);
    proof {
        lemma_mul_bound(config.min_profit as int, SCALE as int, PRICE_LIMIT as int, SCALE as int);
    }
    let threshold: i128 = config.min_profit as i128 * SCALE as i128;
    if objective <= threshold {
        return Err(ArbitrageError::NoArbitrageOpportunity);
    }
    let n = lp.num_vars / 3;
    let mut positions: Vec<i64> = Vec::new();
    let mut i: usize = 0;
    while i < n
        invariant
            i <= n,
            n == lp.num_vars / 3,
            lp.num_vars % 3 == 0,
            assignment@.len() == lp.num_vars,
            positions@.len() == i,
            forall|j: int| 0 <= j < i ==> #[trigger] positions@[j] == assignment@[3 * j],
        decreases n - i,
    {
        positions.push(assignment[3 * i]);
        i = i + 1;
    }
    Ok(positions)
}

/// Pairs the resolved net positions with the instrument names, preserving
/// the input order: the portfolio has exactly one holding per instrument,
/// a zero position included.
pub fn construct_portfolio(option_data: &Vec<OptionData>, positions: &Vec<i64>) -> (portfolio:
    Portfolio)
    requires
        option_data@.len() == positions@.len(),
    ensures
        portfolio.holdings@.len() == option_data@.len(),
        forall|i: int| 0 <= i < option_data@.len() ==> {
            let h = #[trigger] portfolio.holdings@[i];
            h.0@ == option_data@[i].name@ && h.1 == positions@[i]
        },
{
    let n = option_data.len();
    let mut holdings: Vec<(String, i64)> = Vec::new();
    let mut i: usize = 0;
    while i < n
        invariant
            i <= n,
            n == option_data@.len(),
            n == positions@.len(),
            holdings@.len() == i,
            forall|j: int| 0 <= j < i ==> {
                let h = #[trigger] holdings@[j];
                h.0@ == option_data@[j].name@ && h.1 == positions@[j]
            },
        decreases n - i,
    {
        holdings.push((option_data[i].name.clone(), positions[i]));
        i = i + 1;
    }
    Portfolio { holdings }
}

/// When no instrument shows a signal — every theoretical price equals its
/// market price — and transaction costs are zero, the objective of every
/// assignment is zero, so whatever the backend returns, a feasible
/// solution is classified as "no arbitrage opportunity found".
pub proof fn lemma_no_signal_means_no_opportunity(
    lp: LinearProgram,
    market: Seq<i64>,
    costs: Seq<i64>,
    capital: int,
    liquidity: Seq<i64>,
    bench: Seq<i64>,
    risks: Seq<i64>,
    theo: Seq<i64>,
    tol: int,
    x: Seq<i64>,
    config: SolveConfig,
)
    requires
        is_arbitrage_program(lp, market, costs, capital, liquidity, bench, risks, theo, tol),
        forall|i: int| 0 <= i < theo.len() ==> #[trigger] theo[i] == market[i],
        forall|i: int| 0 <= i < costs.len() ==> #[trigger] costs[i] == 0,
        config.wf(),
    ensures
        objective_value(lp, x) == 0,
        !is_opportunity(objective_value(lp, x), config),
{
    assert forall|k: int| 0 <= k < lp.objective@.len() implies (#[trigger] lp.objective@[k]).1
        == 0 by {
        assert(theo[k] == market[k]);
        assert(costs[k] == 0);
    }
    lemma_dot_zero_coeffs(lp.objective@, x);
    lemma_mul_nonneg(config.min_profit as int, SCALE as int);
}

} // verus!
