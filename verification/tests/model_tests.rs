use strato_model::arbitrage::SolveConfig;
use strato_model::arbitrage::find_arbitrage;
use strato_model::error::ArbitrageError;
use strato_model::instrument::OptionData;
use strato_model::instrument::OptionKind;
use strato_model::linear::CmpOp;
use strato_model::linear::LinearProgram;
use strato_model::solution::construct_portfolio;
use strato_model::solution::resolve_solution;

// One whole unit in fixed-point ticks.
const S: i64 = 1_000_000;

fn option(name: &str, kind: OptionKind, market_price: i64) -> OptionData {
    OptionData {
        name: name.to_string(),
        s: 100 * S,
        k: 100 * S,
        t: 1 * S,
        r: 50_000,
        sigma: 200_000,
        option_type: kind,
        market_price,
    }
}

fn config() -> SolveConfig {
    SolveConfig { tolerance: 10_000, min_profit: 0 }
}

/// Two instruments with hand-picked prices, one risk level and one state.
fn two_instrument_program() -> Result<LinearProgram, ArbitrageError> {
    let market = vec![8 * S, 12 * S];
    let costs = vec![10_000, 10_000];
    let capital = 10_000 * S;
    let liquidity = vec![50 * S, 50 * S];
    let index_returns = vec![0];
    let risk_levels = vec![500_000];
    let theo = vec![12_960_000, 12_100_000];
    let options = vec![
        option("Call Option 1", OptionKind::Call, market[0]),
        option("Put Option 1", OptionKind::Put, market[1]),
    ];
    find_arbitrage(
        &market,
        &costs,
        capital,
        &liquidity,
        &index_returns,
        &risk_levels,
        &theo,
        &options,
        &config(),
    )
}

#[test]
fn test_find_arbitrage_rejects_empty_instrument_list() {
    let empty: Vec<i64> = vec![];
    let result = find_arbitrage(
        &empty,
        &empty,
        10_000 * S,
        &empty,
        &vec![0],
        &vec![500_000],
        &empty,
        &vec![],
        &config(),
    );
    assert_eq!(result.unwrap_err(), ArbitrageError::DimensionMismatch);
}

#[test]
fn test_find_arbitrage_rejects_mismatched_costs() {
    let options = vec![option("A", OptionKind::Call, 8 * S)];
    let result = find_arbitrage(
        &vec![8 * S],
        &vec![10_000, 10_000],
        10_000 * S,
        &vec![50 * S],
        &vec![0],
        &vec![500_000],
        &vec![12 * S],
        &options,
        &config(),
    );
    assert_eq!(result.unwrap_err(), ArbitrageError::DimensionMismatch);
}

#[test]
fn test_find_arbitrage_rejects_empty_benchmarks() {
    let options = vec![option("A", OptionKind::Call, 8 * S)];
    let result = find_arbitrage(
        &vec![8 * S],
        &vec![10_000],
        10_000 * S,
        &vec![50 * S],
        &vec![],
        &vec![500_000],
        &vec![12 * S],
        &options,
        &config(),
    );
    assert_eq!(result.unwrap_err(), ArbitrageError::DimensionMismatch);
}

#[test]
fn test_find_arbitrage_rejects_empty_risk_levels() {
    let options = vec![option("A", OptionKind::Call, 8 * S)];
    let result = find_arbitrage(
        &vec![8 * S],
        &vec![10_000],
        10_000 * S,
        &vec![50 * S],
        &vec![0],
        &vec![],
        &vec![12 * S],
        &options,
        &config(),
    );
    assert_eq!(result.unwrap_err(), ArbitrageError::DimensionMismatch);
}

#[test]
fn test_find_arbitrage_rejects_nonpositive_underlying() {
    let mut bad = option("A", OptionKind::Call, 8 * S);
    bad.s = 0;
    let result = find_arbitrage(
        &vec![8 * S],
        &vec![10_000],
        10_000 * S,
        &vec![50 * S],
        &vec![0],
        &vec![500_000],
        &vec![12 * S],
        &vec![bad],
        &config(),
    );
    assert_eq!(result.unwrap_err(), ArbitrageError::InvalidInstrument);
}

#[test]
fn test_find_arbitrage_rejects_negative_maturity() {
    let mut bad = option("A", OptionKind::Put, 8 * S);
    bad.t = -1;
    let result = find_arbitrage(
        &vec![8 * S],
        &vec![10_000],
        10_000 * S,
        &vec![50 * S],
        &vec![0],
        &vec![500_000],
        &vec![12 * S],
        &vec![bad],
        &config(),
    );
    assert_eq!(result.unwrap_err(), ArbitrageError::InvalidInstrument);
}

#[test]
fn test_find_arbitrage_rejects_negative_volatility() {
    let mut bad = option("A", OptionKind::Put, 8 * S);
    bad.sigma = -1;
    let result = find_arbitrage(
        &vec![8 * S],
        &vec![10_000],
        10_000 * S,
        &vec![50 * S],
        &vec![0],
        &vec![500_000],
        &vec![12 * S],
        &vec![bad],
        &config(),
    );
    assert_eq!(result.unwrap_err(), ArbitrageError::InvalidInstrument);
}

#[test]
fn test_program_variables_and_bounds() {
    let lp = two_instrument_program().unwrap();
    assert_eq!(lp.num_vars, 6);
    assert_eq!(lp.lower, vec![-50 * S, 0, 0, -50 * S, 0, 0]);
    assert_eq!(lp.upper, vec![50 * S, 50 * S, 50 * S, 50 * S, 50 * S, 50 * S]);
}

#[test]
fn test_program_objective_coefficients() {
    let lp = two_instrument_program().unwrap();
    // Profit per unit: theoretical - market - cost.
    assert_eq!(lp.objective, vec![(0, 4_950_000), (3, 90_000)]);
}

#[test]
fn test_program_split_rows() {
    let lp = two_instrument_program().unwrap();
    assert_eq!(lp.constraints.len(), 12);
    for i in 0..2usize {
        let row = &lp.constraints[i];
        let b = (3 * i, 1i128);
        assert_eq!(row.terms, vec![b, (3 * i + 1, -1), (3 * i + 2, 1)]);
        assert_eq!(row.op, CmpOp::Equal);
        assert_eq!(row.rhs, 0);
        assert_eq!(row.slack, 10_000);
    }
}

#[test]
fn test_program_capital_row() {
    let lp = two_instrument_program().unwrap();
    let row = &lp.constraints[2];
    assert_eq!(
        row.terms,
        vec![(1, 8_010_000i128), (2, 8_010_000), (4, 12_010_000), (5, 12_010_000)]
    );
    assert_eq!(row.op, CmpOp::LessEq);
    // capital (10000 units) times the scale.
    assert_eq!(row.rhs, 10_000_000_000_000_000);
    // tolerance (0.01 unit) times the scale.
    assert_eq!(row.slack, 10_000_000_000);
}

#[test]
fn test_program_liquidity_rows() {
    let lp = two_instrument_program().unwrap();
    let expected = [(1usize, 50 * S), (2, 50 * S), (4, 50 * S), (5, 50 * S)];
    for (offset, (var, limit)) in expected.iter().enumerate() {
        let row = &lp.constraints[3 + offset];
        assert_eq!(row.terms, vec![(*var, 1i128)]);
        assert_eq!(row.op, CmpOp::LessEq);
        assert_eq!(row.rhs, *limit as i128);
        assert_eq!(row.slack, 0);
    }
}

#[test]
fn test_program_position_limit_rows() {
    let lp = two_instrument_program().unwrap();
    // capital * SCALE / n for n = 2 instruments.
    let limit = 5_000_000_000_000_000i128;
    let upper = &lp.constraints[7];
    assert_eq!(upper.terms, vec![(0, 8_010_000i128)]);
    assert_eq!(upper.op, CmpOp::LessEq);
    assert_eq!(upper.rhs, limit);
    let lower = &lp.constraints[8];
    assert_eq!(lower.terms, vec![(0, 8_010_000i128)]);
    assert_eq!(lower.op, CmpOp::GreaterEq);
    assert_eq!(lower.rhs, -limit);
    let upper_put = &lp.constraints[9];
    assert_eq!(upper_put.terms, vec![(3, 12_010_000i128)]);
    assert_eq!(upper_put.rhs, limit);
    let lower_put = &lp.constraints[10];
    assert_eq!(lower_put.op, CmpOp::GreaterEq);
    assert_eq!(lower_put.rhs, -limit);
}

#[test]
fn test_program_dominance_row() {
    let lp = two_instrument_program().unwrap();
    let row = &lp.constraints[11];
    // Profit coefficients weighted by the 0.5 risk level.
    assert_eq!(row.terms, vec![(0, 2_475_000_000_000i128), (3, 45_000_000_000)]);
    assert_eq!(row.op, CmpOp::GreaterEq);
    // Benchmark payoff 0 weighted by risk level and scale.
    assert_eq!(row.rhs, 0);
    // tolerance * risk level * scale.
    assert_eq!(row.slack, 5_000_000_000_000_000);
}

#[test]
fn test_resolve_solution_rejects_wrong_length() {
    let lp = two_instrument_program().unwrap();
    let result = resolve_solution(&lp, &vec![0; 5], &config());
    assert_eq!(result.unwrap_err(), ArbitrageError::NumericalFailure);
}

#[test]
fn test_resolve_solution_rejects_bound_violation() {
    let lp = two_instrument_program().unwrap();
    // Net position beyond the liquidity limit.
    let assignment = vec![60 * S, 60 * S, 0, 0, 0, 0];
    let result = resolve_solution(&lp, &assignment, &config());
    assert_eq!(result.unwrap_err(), ArbitrageError::NumericalFailure);
}

#[test]
fn test_resolve_solution_rejects_broken_split() {
    let lp = two_instrument_program().unwrap();
    // Net of 2 units claimed, but long - short is zero.
    let assignment = vec![2 * S, 0, 0, 0, 0, 0];
    let result = resolve_solution(&lp, &assignment, &config());
    assert_eq!(result.unwrap_err(), ArbitrageError::NumericalFailure);
}

#[test]
fn test_resolve_solution_classifies_no_trade_as_no_arbitrage() {
    let lp = two_instrument_program().unwrap();
    let result = resolve_solution(&lp, &vec![0; 6], &config());
    assert_eq!(result.unwrap_err(), ArbitrageError::NoArbitrageOpportunity);
}

#[test]
fn test_resolve_solution_extracts_net_positions() {
    let lp = two_instrument_program().unwrap();
    // Long one call; the objective gains 4.95 per unit, well above the
    // no-trade baseline.
    let assignment = vec![1 * S, 1 * S, 0, 0, 0, 0];
    let positions = resolve_solution(&lp, &assignment, &config()).unwrap();
    assert_eq!(positions, vec![1 * S, 0]);
}

#[test]
fn test_classification_threshold_is_strict() {
    // One instrument whose profit per unit is exactly 1.0.
    let market = vec![10 * S];
    let costs = vec![0];
    let liquidity = vec![50 * S];
    let theo = vec![11 * S];
    let options = vec![option("A", OptionKind::Call, market[0])];
    let cfg = SolveConfig { tolerance: 0, min_profit: 4 };
    let lp = find_arbitrage(
        &market,
        &costs,
        10_000 * S,
        &liquidity,
        &vec![0],
        &vec![1 * S],
        &theo,
        &options,
        &cfg,
    )
    .unwrap();
    // Net position of 4 ticks earns exactly the margin: not an opportunity.
    let at_margin = resolve_solution(&lp, &vec![4, 4, 0], &cfg);
    assert_eq!(at_margin.unwrap_err(), ArbitrageError::NoArbitrageOpportunity);
    // One tick more beats the margin.
    let above_margin = resolve_solution(&lp, &vec![5, 5, 0], &cfg);
    assert_eq!(above_margin.unwrap(), vec![5]);
}

#[test]
fn test_no_signal_is_classified_no_arbitrage() {
    // Theoretical prices equal market prices and costs are zero: whatever
    // the backend returns, a feasible solution carries no profit.
    let market = vec![8 * S, 12 * S];
    let costs = vec![0, 0];
    let liquidity = vec![50 * S, 50 * S];
    let theo = market.clone();
    let options = vec![
        option("Call Option 1", OptionKind::Call, market[0]),
        option("Put Option 1", OptionKind::Put, market[1]),
    ];
    let lp = find_arbitrage(
        &market,
        &costs,
        10_000 * S,
        &liquidity,
        &vec![0],
        &vec![500_000],
        &theo,
        &options,
        &config(),
    )
    .unwrap();
    for assignment in [vec![0; 6], vec![3 * S, 3 * S, 0, -2 * S, 0, 2 * S]] {
        let result = resolve_solution(&lp, &assignment, &config());
        assert_eq!(result.unwrap_err(), ArbitrageError::NoArbitrageOpportunity);
    }
}

#[test]
fn test_formulation_at_extreme_magnitudes() {
    // Every input at the outermost representable magnitude: the
    // formulation stays exact and the zero solution still resolves.
    let price_limit: i64 = 1_000_000_000_000;
    let quantity_limit: i64 = 1_000_000_000_000;
    let risk_limit: i64 = 1_000_000_000;
    let capital_limit: i64 = 1_000_000_000_000_000;
    let tolerance_limit: i64 = 1_000_000_000;
    let mut instrument = option("A", OptionKind::Call, price_limit);
    instrument.s = price_limit;
    instrument.k = price_limit;
    let cfg = SolveConfig { tolerance: tolerance_limit, min_profit: 0 };
    let lp = find_arbitrage(
        &vec![price_limit],
        &vec![price_limit],
        capital_limit,
        &vec![quantity_limit],
        &vec![-price_limit],
        &vec![risk_limit],
        &vec![-price_limit],
        &vec![instrument],
        &cfg,
    )
    .unwrap();
    // Profit per unit: -price - price - price.
    assert_eq!(lp.objective, vec![(0, -3_000_000_000_000i128)]);
    let capital_row = &lp.constraints[1];
    assert_eq!(capital_row.rhs, 1_000_000_000_000_000_000_000i128);
    let dominance = &lp.constraints[6];
    assert_eq!(dominance.terms, vec![(0, -3_000_000_000_000_000_000_000i128)]);
    assert_eq!(dominance.rhs, -1_000_000_000_000_000_000_000_000_000i128);
    assert_eq!(dominance.slack, 1_000_000_000_000_000_000_000_000i128);
    let result = resolve_solution(&lp, &vec![0, 0, 0], &cfg);
    assert_eq!(result.unwrap_err(), ArbitrageError::NoArbitrageOpportunity);
}

#[test]
fn test_construct_portfolio_preserves_order_and_zero_positions() {
    let options = vec![
        option("Call Option 1", OptionKind::Call, 8 * S),
        option("Put Option 1", OptionKind::Put, 12 * S),
        option("Call Option 2", OptionKind::Call, 9 * S),
    ];
    let positions = vec![25 * S, 0, -10 * S];
    let portfolio = construct_portfolio(&options, &positions);
    assert_eq!(portfolio.holdings.len(), 3);
    assert_eq!(portfolio.holdings[0], ("Call Option 1".to_string(), 25 * S));
    assert_eq!(portfolio.holdings[1], ("Put Option 1".to_string(), 0));
    assert_eq!(portfolio.holdings[2], ("Call Option 2".to_string(), -10 * S));
}
