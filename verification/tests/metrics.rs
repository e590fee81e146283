use tacn_backtest::metrics::{count_wins, find_entry, round_trip_pnl, sharpe_ratio, total_return, win_rate};
use tacn_backtest::{BacktestEngine, Order, OrderStatus, Trade, TradeType};

const UNIT: u64 = 1_000_000;

fn order(symbol: &str, side: TradeType, price: u64, quantity: u64, timestamp: i64) -> Order {
    Order {
        id: format!("o{}", timestamp),
        symbol: symbol.to_string(),
        trade_type: side,
        price,
        quantity,
        timestamp,
        status: OrderStatus::Pending,
    }
}

fn trade(symbol: &str, side: TradeType, price: u64, quantity: u64, timestamp: i64, commission: u64) -> Trade {
    Trade { symbol: symbol.to_string(), trade_type: side, price, quantity, timestamp, commission }
}

#[test]
fn round_trip_profit_and_summary() {
    let mut engine = BacktestEngine::new(10_000 * UNIT, 0);
    engine.process_order(order("ACME", TradeType::Buy, 100 * UNIT, 10 * UNIT, 1)).unwrap();
    engine.process_order(order("ACME", TradeType::Sell, 110 * UNIT, 10 * UNIT, 2)).unwrap();
    let log = engine.trades();
    assert_eq!(round_trip_pnl(&log[0], &log[1]), 100 * UNIT as i128);
    let result = engine.calculate_result();
    assert_eq!(result.total_trades, 2);
    assert_eq!(result.winning_trades, 1);
    assert_eq!(result.losing_trades, 0);
    assert_eq!(result.total_return, 1_000_000);
    assert_eq!(result.max_drawdown, 10_000_000);
    assert_eq!(result.sharpe_ratio, Some(0));
    assert_eq!(result.win_rate, 100 * UNIT);
    assert_eq!(result.final_capital, 10_100 * UNIT);
}

#[test]
fn drawdown_follows_the_running_peak() {
    // The cash runs 10000, 9500, 9800, 9000, 9600.
    let mut engine = BacktestEngine::new(10_000 * UNIT, 0);
    engine.process_order(order("ACME", TradeType::Buy, UNIT, 500 * UNIT, 1)).unwrap();
    engine.process_order(order("ACME", TradeType::Sell, UNIT, 300 * UNIT, 2)).unwrap();
    engine.process_order(order("ACME", TradeType::Buy, UNIT, 800 * UNIT, 3)).unwrap();
    engine.process_order(order("ACME", TradeType::Sell, UNIT, 600 * UNIT, 4)).unwrap();
    assert_eq!(engine.current_capital(), 9_600 * UNIT);
    assert_eq!(engine.calculate_max_drawdown(), 10 * UNIT);
    assert_eq!(engine.calculate_result().max_drawdown, 10 * UNIT);
}

#[test]
fn drawdown_is_measured_from_a_new_peak() {
    // The cash runs 1000, 900, 1200, 900: a quarter below the peak of 1200.
    let mut engine = BacktestEngine::new(1_000 * UNIT, 0);
    engine.process_order(order("ACME", TradeType::Buy, 10 * UNIT, 10 * UNIT, 1)).unwrap();
    engine.process_order(order("ACME", TradeType::Sell, 30 * UNIT, 10 * UNIT, 2)).unwrap();
    engine.process_order(order("ACME", TradeType::Buy, 30 * UNIT, 10 * UNIT, 3)).unwrap();
    assert_eq!(engine.calculate_max_drawdown(), 25 * UNIT);
}

#[test]
fn drawdown_of_an_empty_log_is_zero() {
    let engine = BacktestEngine::new(1_000 * UNIT, 0);
    assert_eq!(engine.calculate_max_drawdown(), 0);
}

#[test]
fn win_rate_is_zero_without_sells() {
    let mut engine = BacktestEngine::new(10_000 * UNIT, 1_000);
    let empty = engine.calculate_result();
    assert_eq!(empty.win_rate, 0);
    assert_eq!(empty.total_trades, 0);
    assert_eq!(empty.sharpe_ratio, Some(0));
    assert_eq!(empty.total_return, 0);
    engine.process_order(order("ACME", TradeType::Buy, 100 * UNIT, 10 * UNIT, 1)).unwrap();
    let result = engine.calculate_result();
    assert_eq!(result.win_rate, 0);
    assert_eq!(result.winning_trades, 0);
    assert_eq!(result.losing_trades, 0);
    assert_eq!(result.total_trades, 1);
    assert_eq!(win_rate(0, 0), 0);
}

#[test]
fn win_rate_rounds_down() {
    assert_eq!(win_rate(1, 3), 33_333_333);
    assert_eq!(win_rate(2, 3), 66_666_666);
    assert_eq!(win_rate(3, 3), 100 * UNIT);
    assert_eq!(win_rate(0, 5), 0);
}

#[test]
fn total_return_rounds_toward_zero() {
    assert_eq!(total_return(10_000 * UNIT, 10_400 * UNIT), 4_000_000);
    assert_eq!(total_return(10_000 * UNIT, 9_000 * UNIT), -10_000_000);
    assert_eq!(total_return(3, 4), 33_333_333);
    assert_eq!(total_return(3, 2), -33_333_333);
    assert_eq!(total_return(3, 0), -100_000_000);
}

#[test]
fn sharpe_ratio_of_two_round_trips() {
    // Returns of one and three percent: mean 0.02, deviation 0.01.
    let mut engine = BacktestEngine::new(10_000 * UNIT, 0);
    engine.process_order(order("ACME", TradeType::Buy, 100 * UNIT, 10 * UNIT, 1)).unwrap();
    engine.process_order(order("ACME", TradeType::Sell, 110 * UNIT, 10 * UNIT, 2)).unwrap();
    engine.process_order(order("ACME", TradeType::Buy, 100 * UNIT, 10 * UNIT, 3)).unwrap();
    engine.process_order(order("ACME", TradeType::Sell, 130 * UNIT, 10 * UNIT, 4)).unwrap();
    let result = engine.calculate_result();
    assert_eq!(result.sharpe_ratio, Some(2_000_000));
    assert_eq!(result.win_rate, 100 * UNIT);
    assert_eq!(result.total_return, 4_000_000);
    assert_eq!(result.final_capital, 10_400 * UNIT);
}

#[test]
fn sells_pair_with_the_first_earlier_buy() {
    // The second sell loses against the buy before it, and wins against the
    // first buy of the symbol: the win count goes by the first.
    let mut engine = BacktestEngine::new(10_000 * UNIT, 0);
    engine.process_order(order("ACME", TradeType::Buy, 100 * UNIT, 10 * UNIT, 1)).unwrap();
    engine.process_order(order("ACME", TradeType::Sell, 110 * UNIT, 10 * UNIT, 2)).unwrap();
    engine.process_order(order("ACME", TradeType::Buy, 200 * UNIT, 10 * UNIT, 3)).unwrap();
    engine.process_order(order("ACME", TradeType::Sell, 150 * UNIT, 10 * UNIT, 4)).unwrap();
    let result = engine.calculate_result();
    assert_eq!(result.winning_trades, 2);
    assert_eq!(result.losing_trades, 0);
    // The ratio goes by adjacent pairs: returns of 0.01 and -0.05.
    assert_eq!(result.sharpe_ratio, Some(-666_666));
    assert_eq!(result.final_capital, 9_600 * UNIT);
    assert_eq!(result.total_return, -4_000_000);
}

#[test]
fn entry_must_be_stamped_earlier_and_of_the_same_symbol() {
    let log = vec![
        trade("BOLT", TradeType::Buy, 10 * UNIT, UNIT, 1, 0),
        trade("ACME", TradeType::Buy, 10 * UNIT, UNIT, 5, 0),
        trade("ACME", TradeType::Sell, 10 * UNIT, UNIT, 3, 0),
        trade("ACME", TradeType::Buy, 20 * UNIT, UNIT, 4, 0),
    ];
    let early = trade("ACME", TradeType::Sell, 30 * UNIT, UNIT, 5, 0);
    assert_eq!(find_entry(&log, &early), Some(3));
    let late = trade("ACME", TradeType::Sell, 30 * UNIT, UNIT, 6, 0);
    assert_eq!(find_entry(&log, &late), Some(1));
    let first = trade("ACME", TradeType::Sell, 30 * UNIT, UNIT, 4, 0);
    assert_eq!(find_entry(&log, &first), None);
    let other = trade("CORE", TradeType::Sell, 30 * UNIT, UNIT, 9, 0);
    assert_eq!(find_entry(&log, &other), None);
}

#[test]
fn a_sell_without_entry_counts_as_a_sell_only() {
    let log = vec![
        trade("ACME", TradeType::Sell, 30 * UNIT, UNIT, 1, 0),
        trade("ACME", TradeType::Buy, 10 * UNIT, UNIT, 2, 0),
        trade("ACME", TradeType::Sell, 30 * UNIT, UNIT, 3, 0),
        trade("ACME", TradeType::Sell, 5 * UNIT, UNIT, 4, 0),
    ];
    assert_eq!(count_wins(&log), (1, 3));
}

#[test]
fn profit_counts_both_commissions() {
    let b = trade("ACME", TradeType::Buy, 100 * UNIT, 10 * UNIT, 1, 3 * UNIT);
    let s = trade("ACME", TradeType::Sell, 101 * UNIT, 10 * UNIT, 2, 7 * UNIT);
    assert_eq!(round_trip_pnl(&b, &s), 0);
    let s = trade("ACME", TradeType::Sell, 99 * UNIT, 10 * UNIT, 2, 7 * UNIT);
    assert_eq!(round_trip_pnl(&b, &s), -20 * UNIT as i128);
    // A loss of 1.5 millionths rounds toward zero.
    let b = trade("ACME", TradeType::Buy, 3, 500_000, 1, 0);
    let s = trade("ACME", TradeType::Sell, 0, 500_000, 2, 0);
    assert_eq!(round_trip_pnl(&b, &s), -1);
}

#[test]
fn sharpe_ratio_is_zero_for_equal_returns_and_short_logs() {
    let one = vec![
        trade("ACME", TradeType::Buy, 100 * UNIT, 10 * UNIT, 1, 0),
        trade("ACME", TradeType::Sell, 110 * UNIT, 10 * UNIT, 2, 0),
    ];
    assert_eq!(sharpe_ratio(&one), Some(0));
    let same = vec![
        trade("ACME", TradeType::Buy, 100 * UNIT, 10 * UNIT, 1, 0),
        trade("ACME", TradeType::Sell, 110 * UNIT, 10 * UNIT, 2, 0),
        trade("ACME", TradeType::Buy, 100 * UNIT, 10 * UNIT, 3, 0),
        trade("ACME", TradeType::Sell, 110 * UNIT, 10 * UNIT, 4, 0),
    ];
    assert_eq!(sharpe_ratio(&same), Some(0));
    assert_eq!(sharpe_ratio(&Vec::new()), Some(0));
}

#[test]
fn sharpe_ratio_skips_pairs_that_are_no_round_trip() {
    // Pairs: (buy, buy) is skipped, (sell, buy) is skipped, the odd trade at
    // the end is skipped; two round trips remain.
    let log = vec![
        trade("ACME", TradeType::Buy, 100 * UNIT, 10 * UNIT, 1, 0),
        trade("ACME", TradeType::Sell, 110 * UNIT, 10 * UNIT, 2, 0),
        trade("ACME", TradeType::Buy, 100 * UNIT, 10 * UNIT, 3, 0),
        trade("ACME", TradeType::Buy, 100 * UNIT, 10 * UNIT, 4, 0),
        trade("ACME", TradeType::Sell, 100 * UNIT, 10 * UNIT, 5, 0),
        trade("ACME", TradeType::Buy, 100 * UNIT, 10 * UNIT, 6, 0),
        trade("ACME", TradeType::Buy, 100 * UNIT, 10 * UNIT, 7, 0),
        trade("ACME", TradeType::Sell, 130 * UNIT, 10 * UNIT, 8, 0),
        trade("ACME", TradeType::Buy, 100 * UNIT, 10 * UNIT, 9, 0),
    ];
    assert_eq!(sharpe_ratio(&log), Some(2_000_000));
}

#[test]
fn sharpe_ratio_gives_up_on_profits_beyond_the_range() {
    let log = vec![
        trade("ACME", TradeType::Buy, 0, u64::MAX, 1, 0),
        trade("ACME", TradeType::Sell, u64::MAX, u64::MAX, 2, 0),
        trade("ACME", TradeType::Buy, 0, u64::MAX, 3, 0),
        trade("ACME", TradeType::Sell, 1, u64::MAX, 4, 0),
    ];
    assert_eq!(sharpe_ratio(&log), None);
}
