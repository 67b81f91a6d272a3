use strato_model::instrument::OptionKind;
use strato_model::instrument::intrinsic_value;
use strato_model::instrument::mispricing;
use strato_model::trend::MovingAverageCrossover;

// One whole unit in fixed-point ticks.
const S: i64 = 1_000_000;

#[test]
fn test_intrinsic_value_call_in_the_money() {
    // Deep in-the-money call: s = 150, k = 100.
    assert_eq!(intrinsic_value(OptionKind::Call, 150 * S, 100 * S), 50 * S);
}

#[test]
fn test_intrinsic_value_call_out_of_the_money() {
    assert_eq!(intrinsic_value(OptionKind::Call, 90 * S, 100 * S), 0);
}

#[test]
fn test_intrinsic_value_put_in_the_money() {
    assert_eq!(intrinsic_value(OptionKind::Put, 90 * S, 110 * S), 20 * S);
}

#[test]
fn test_intrinsic_value_put_out_of_the_money() {
    assert_eq!(intrinsic_value(OptionKind::Put, 120 * S, 110 * S), 0);
}

#[test]
fn test_intrinsic_value_at_the_money() {
    assert_eq!(intrinsic_value(OptionKind::Call, 100 * S, 100 * S), 0);
    assert_eq!(intrinsic_value(OptionKind::Put, 100 * S, 100 * S), 0);
}

#[test]
fn test_mispricing_signal() {
    // Theoretical 10.45058, market 8.0: signal is the difference.
    assert_eq!(mispricing(10_450_580, 8_000_000), 2_450_580);
    // Overpriced instrument: negative signal.
    assert_eq!(mispricing(5_573_520, 12 * S), 5_573_520 - 12_000_000);
}

#[test]
fn test_moving_average() {
    let data = vec![1 * S, 2 * S, 3 * S, 4 * S, 5 * S];
    let ma = MovingAverageCrossover::moving_average(&data, 3);
    assert_eq!(ma, 4 * S);
}

#[test]
fn test_moving_average_window_longer_than_series() {
    // Two values, window of four: the sum of what is there, still divided
    // by the window.
    let data = vec![2 * S, 4 * S];
    let ma = MovingAverageCrossover::moving_average(&data, 4);
    assert_eq!(ma, 6 * S / 4);
}

#[test]
fn test_moving_average_rounds_down() {
    let data = vec![1 * S, 2 * S, 4 * S];
    let ma = MovingAverageCrossover::moving_average(&data, 3);
    assert_eq!(ma, (7 * S) / 3);
}

#[test]
fn test_moving_average_crossover_new() {
    let strategy = MovingAverageCrossover::new(3, 5);
    assert_eq!(strategy.short_window, 3);
    assert_eq!(strategy.long_window, 5);
}
