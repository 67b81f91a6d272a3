use good_lp::Expression;
use good_lp::Solution;
use good_lp::SolverModel;
use good_lp::constraint::eq;
use good_lp::constraint::geq;
use good_lp::constraint::leq;
use good_lp::default_solver;
use good_lp::variable;

use statrs::function::erf::erf;

use strato_model::arbitrage::SolveConfig;
use strato_model::arbitrage::find_arbitrage;
use strato_model::error::ArbitrageError;
use strato_model::instrument::OptionData;
use strato_model::instrument::OptionKind;
use strato_model::linear::CmpOp;
use strato_model::linear::LinearProgram;
use strato_model::solution::construct_portfolio;
use strato_model::solution::resolve_solution;

// One whole unit in fixed-point ticks.
const S: i64 = 1_000_000;
const SCALE_F: f64 = 1_000_000.0;

fn to_ticks(x: f64) -> i64 {
    (x * SCALE_F).round() as i64
}

fn norm_cdf(x: f64) -> f64 {
    0.5 * (1.0 + erf(x / f64::sqrt(2.0)))
}

fn black_scholes_call(s: f64, k: f64, t: f64, r: f64, sigma: f64) -> f64 {
    if t == 0.0 {
        return (s - k).max(0.0);
    }
    if sigma == 0.0 {
        return (s - k * f64::exp(-r * t)).max(0.0);
    }
    let d1 = (f64::ln(s / k) + (r + 0.5 * sigma.powi(2)) * t) / (sigma * f64::sqrt(t));
    let d2 = d1 - sigma * f64::sqrt(t);
    s * norm_cdf(d1) - k * f64::exp(-r * t) * norm_cdf(d2)
}

fn black_scholes_put(s: f64, k: f64, t: f64, r: f64, sigma: f64) -> f64 {
    if t == 0.0 {
        return (k - s).max(0.0);
    }
    if sigma == 0.0 {
        return (k * f64::exp(-r * t) - s).max(0.0);
    }
    let d1 = (f64::ln(s / k) + (r + 0.5 * sigma.powi(2)) * t) / (sigma * f64::sqrt(t));
    let d2 = d1 - sigma * f64::sqrt(t);
    k * f64::exp(-r * t) * norm_cdf(-d2) - s * norm_cdf(-d1)
}

/// Runs a real LP backend on the program and hands back the assignment in
/// ticks, each variable clamped into its declared bounds to absorb the
/// backend's rounding.
fn solve_with_backend(lp: &LinearProgram) -> Result<Vec<i64>, ArbitrageError> {
    let mut vars = good_lp::ProblemVariables::new();
    let mut vs: Vec<good_lp::Variable> = Vec::new();
    for j in 0..lp.num_vars {
        let lo = lp.lower[j] as f64 / SCALE_F;
        let hi = lp.upper[j] as f64 / SCALE_F;
        vs.push(vars.add(variable().min(lo).max(hi)));
    }
    let mut objective = Expression::from(0.0);
    for (j, c) in &lp.objective {
        objective += *c as f64 * vs[*j];
    }
    let mut problem = vars.maximise(objective).using(default_solver);
    for row in &lp.constraints {
        // The solver variables are in whole units; a row over ticks keeps
        // its meaning after dividing both sides by the scale and by the
        // row's largest coefficient.
        let norm = row
            .terms
            .iter()
            .map(|(_, c)| (*c as f64).abs())
            .fold(1.0, f64::max);
        let mut lhs = Expression::from(0.0);
        for (j, c) in &row.terms {
            lhs += (*c as f64 / norm) * vs[*j];
        }
        let rhs = row.rhs as f64 / norm / SCALE_F;
        let c = match row.op {
            CmpOp::LessEq => leq(lhs, rhs),
            CmpOp::GreaterEq => geq(lhs, rhs),
            CmpOp::Equal => eq(lhs, rhs),
        };
        problem = problem.with(c);
    }
    let solution = problem.solve().map_err(|e| match e {
        good_lp::ResolutionError::Infeasible => ArbitrageError::Infeasible,
        good_lp::ResolutionError::Unbounded => ArbitrageError::Unbounded,
        _ => ArbitrageError::NumericalFailure,
    })?;
    let mut assignment: Vec<i64> = Vec::new();
    for (j, v) in vs.iter().enumerate() {
        let ticks = to_ticks(solution.value(*v));
        assignment.push(ticks.clamp(lp.lower[j], lp.upper[j]));
    }
    Ok(assignment)
}

/// Validates the pricing fixture these tests feed the library: the known
/// Black-Scholes values at (100, 100, 1.0, 0.05, 0.2), and put-call
/// parity at the same point.
#[test]
fn test_black_scholes_fixture_values() {
    let call = black_scholes_call(100.0, 100.0, 1.0, 0.05, 0.2);
    let put = black_scholes_put(100.0, 100.0, 1.0, 0.05, 0.2);
    assert!((call - 10.45058).abs() < 1e-5);
    assert!((put - 5.57352).abs() < 1e-5);
    let parity = call - put - (100.0 - 100.0 * f64::exp(-0.05));
    assert!(parity.abs() < 1e-6);
}

/// The example scenario: a cheap call and an expensive put, generous
/// capital, tight liquidity.  Every resolved position must stay within
/// the 50-unit liquidity limit.
#[test]
fn test_example_scenario_positions_within_liquidity() {
    let call_theo = black_scholes_call(100.0, 90.0, 0.5, 0.05, 0.2);
    let put_theo = black_scholes_put(100.0, 110.0, 0.5, 0.05, 0.2);
    let options = vec![
        OptionData {
            name: "Call".to_string(),
            s: 100 * S,
            k: 90 * S,
            t: 500_000,
            r: 50_000,
            sigma: 200_000,
            option_type: OptionKind::Call,
            market_price: 8 * S,
        },
        OptionData {
            name: "Put".to_string(),
            s: 100 * S,
            k: 110 * S,
            t: 500_000,
            r: 50_000,
            sigma: 200_000,
            option_type: OptionKind::Put,
            market_price: 12 * S,
        },
    ];
    let market = vec![8 * S, 12 * S];
    let costs = vec![10_000, 10_000];
    let liquidity = vec![50 * S, 50 * S];
    let theo = vec![to_ticks(call_theo), to_ticks(put_theo)];
    let index_returns = vec![0];
    let risk_levels = vec![10_000, 100_000, 500_000];
    let cfg = SolveConfig { tolerance: 50_000, min_profit: 0 };
    let lp = find_arbitrage(
        &market,
        &costs,
        10_000 * S,
        &liquidity,
        &index_returns,
        &risk_levels,
        &theo,
        &options,
        &cfg,
    )
    .unwrap();
    let assignment = solve_with_backend(&lp).unwrap();
    let positions = resolve_solution(&lp, &assignment, &cfg).unwrap();
    assert_eq!(positions.len(), 2);
    for p in &positions {
        assert!(p.abs() <= 50 * S, "position {} beyond liquidity", p);
    }
    // The accepted assignment splits each net position into long and
    // short parts consistently, within the configured tolerance.
    for i in 0..2 {
        let split = assignment[3 * i] - (assignment[3 * i + 1] - assignment[3 * i + 2]);
        assert!(split.abs() <= cfg.tolerance);
    }
    // The call is underpriced by almost five units: the solve goes long
    // up to the liquidity limit.
    assert_eq!(positions[0], 50 * S);
    let portfolio = construct_portfolio(&options, &positions);
    assert_eq!(portfolio.holdings[0].0, "Call");
    assert_eq!(portfolio.holdings[1].0, "Put");
}

/// Gross exposure of the accepted solution stays within the budget even
/// when capital, not liquidity, is the binding constraint.
#[test]
fn test_capital_budget_binds_gross_exposure() {
    let options = vec![
        OptionData {
            name: "Call".to_string(),
            s: 100 * S,
            k: 90 * S,
            t: 500_000,
            r: 50_000,
            sigma: 200_000,
            option_type: OptionKind::Call,
            market_price: 8 * S,
        },
    ];
    let market = vec![8 * S];
    let costs = vec![10_000];
    let capital = 100 * S;
    let liquidity = vec![1000 * S];
    let theo = vec![13 * S];
    let cfg = SolveConfig { tolerance: 50_000, min_profit: 0 };
    let lp = find_arbitrage(
        &market,
        &costs,
        capital,
        &liquidity,
        &vec![0],
        &vec![500_000],
        &theo,
        &options,
        &cfg,
    )
    .unwrap();
    let assignment = solve_with_backend(&lp).unwrap();
    let positions = resolve_solution(&lp, &assignment, &cfg).unwrap();
    // Long and short parts of the solution, priced at market plus cost,
    // stay within capital (plus tolerance).
    let long = assignment[1] as i128;
    let short = assignment[2] as i128;
    let gross = (long + short) * 8_010_000i128;
    assert!(gross <= (capital as i128 + cfg.tolerance as i128) * S as i128);
    // The binding budget allows about 12.48 units of the 8.01 cost each.
    assert!(positions[0] > 12 * S && positions[0] < 13 * S);
}

/// With no mispricing signal and no costs, the backend's optimum is
/// classified as "no arbitrage opportunity found".
#[test]
fn test_no_signal_round_trip_finds_no_arbitrage() {
    let call_theo = black_scholes_call(100.0, 100.0, 1.0, 0.05, 0.2);
    let put_theo = black_scholes_put(100.0, 100.0, 1.0, 0.05, 0.2);
    let market = vec![to_ticks(call_theo), to_ticks(put_theo)];
    let options = vec![
        OptionData {
            name: "Call".to_string(),
            s: 100 * S,
            k: 100 * S,
            t: 1 * S,
            r: 50_000,
            sigma: 200_000,
            option_type: OptionKind::Call,
            market_price: market[0],
        },
        OptionData {
            name: "Put".to_string(),
            s: 100 * S,
            k: 100 * S,
            t: 1 * S,
            r: 50_000,
            sigma: 200_000,
            option_type: OptionKind::Put,
            market_price: market[1],
        },
    ];
    let costs = vec![0, 0];
    let liquidity = vec![50 * S, 50 * S];
    let theo = market.clone();
    let cfg = SolveConfig { tolerance: 50_000, min_profit: 0 };
    let lp = find_arbitrage(
        &market,
        &costs,
        10_000 * S,
        &liquidity,
        &vec![0],
        &vec![10_000, 500_000],
        &theo,
        &options,
        &cfg,
    )
    .unwrap();
    let assignment = solve_with_backend(&lp).unwrap();
    let result = resolve_solution(&lp, &assignment, &cfg);
    assert_eq!(result.unwrap_err(), ArbitrageError::NoArbitrageOpportunity);
}

/// An unsatisfiable dominance requirement surfaces as an infeasible
/// solve, not a crash.
#[test]
fn test_unsatisfiable_dominance_is_infeasible() {
    let options = vec![
        OptionData {
            name: "Call".to_string(),
            s: 100 * S,
            k: 100 * S,
            t: 1 * S,
            r: 50_000,
            sigma: 200_000,
            option_type: OptionKind::Call,
            market_price: 10 * S,
        },
    ];
    let market = vec![10 * S];
    let costs = vec![10_000];
    // Tiny liquidity: the portfolio cannot return the benchmark's 1000.
    let liquidity = vec![1 * S];
    let theo = vec![10 * S];
    let cfg = SolveConfig { tolerance: 0, min_profit: 0 };
    let lp = find_arbitrage(
        &market,
        &costs,
        10_000 * S,
        &liquidity,
        &vec![1000 * S],
        &vec![1 * S],
        &theo,
        &options,
        &cfg,
    )
    .unwrap();
    let result = solve_with_backend(&lp);
    assert_eq!(result.unwrap_err(), ArbitrageError::Infeasible);
}
