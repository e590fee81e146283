use tacn_backtest::{BacktestEngine, Order, OrderStatus, Rejection, TradeType};

const UNIT: u64 = 1_000_000;

fn order(symbol: &str, side: TradeType, price: u64, quantity: u64, timestamp: i64) -> Order {
    Order {
        id: format!("o{}", timestamp),
        symbol: symbol.to_string(),
        trade_type: side,
        price,
        quantity,
        timestamp,
        status: OrderStatus::Pending,
    }
}

fn buy(symbol: &str, price: u64, quantity: u64, timestamp: i64) -> Order {
    order(symbol, TradeType::Buy, price, quantity, timestamp)
}

fn sell(symbol: &str, price: u64, quantity: u64, timestamp: i64) -> Order {
    order(symbol, TradeType::Sell, price, quantity, timestamp)
}

#[test]
fn new_engine_is_fresh() {
    let engine = BacktestEngine::new(10_000 * UNIT, 1_000);
    assert_eq!(engine.capital(), 10_000 * UNIT);
    assert_eq!(engine.current_capital(), 10_000 * UNIT);
    assert_eq!(engine.commission_rate(), 1_000);
    assert!(engine.trades().is_empty());
    assert!(engine.position("ACME").is_none());
}

#[test]
fn buy_then_sell_round_trip() {
    let mut engine = BacktestEngine::new(10_000 * UNIT, 0);
    let bought = engine.process_order(buy("ACME", 100 * UNIT, 10 * UNIT, 1)).unwrap();
    assert_eq!(bought.commission, 0);
    assert_eq!(bought.trade_type, TradeType::Buy);
    assert_eq!(engine.current_capital(), 9_000 * UNIT);
    let held = engine.position("ACME").unwrap();
    assert_eq!(held.quantity, 10 * UNIT);
    assert_eq!(held.avg_price, 100 * UNIT);
    let sold = engine.process_order(sell("ACME", 110 * UNIT, 10 * UNIT, 2)).unwrap();
    assert_eq!(sold.commission, 0);
    assert_eq!(engine.current_capital(), 10_100 * UNIT);
    assert!(engine.position("ACME").is_none());
    assert_eq!(engine.trades().len(), 2);
    assert_eq!(engine.trades()[1].price, 110 * UNIT);
}

#[test]
fn commission_is_charged_on_both_legs() {
    // 0.1 percent of 1000 is 1.
    let mut engine = BacktestEngine::new(10_000 * UNIT, 1_000);
    let bought = engine.process_order(buy("ACME", 100 * UNIT, 10 * UNIT, 1)).unwrap();
    assert_eq!(bought.commission, UNIT);
    assert_eq!(engine.current_capital(), 8_999 * UNIT);
    let sold = engine.process_order(sell("ACME", 100 * UNIT, 10 * UNIT, 2)).unwrap();
    assert_eq!(sold.commission, UNIT);
    assert_eq!(engine.current_capital(), 9_998 * UNIT);
}

#[test]
fn buys_spend_their_cost_and_blend_the_price() {
    let mut engine = BacktestEngine::new(10_000 * UNIT, 2_500);
    engine.process_order(buy("ACME", 100 * UNIT, 10 * UNIT, 1)).unwrap();
    engine.process_order(buy("ACME", 200 * UNIT, 30 * UNIT, 2)).unwrap();
    engine.process_order(buy("BOLT", 50 * UNIT, 4 * UNIT, 3)).unwrap();
    // 1000 + 6000 + 200 of notional, and a quarter percent of each on top.
    let spent = 7_200 * UNIT + 18 * UNIT;
    assert_eq!(engine.current_capital(), 10_000 * UNIT - spent);
    let acme = engine.position("ACME").unwrap();
    assert_eq!(acme.quantity, 40 * UNIT);
    // (100 * 10 + 200 * 30) / 40
    assert_eq!(acme.avg_price, 175 * UNIT);
    let bolt = engine.position("BOLT").unwrap();
    assert_eq!(bolt.quantity, 4 * UNIT);
    assert_eq!(bolt.avg_price, 50 * UNIT);
}

#[test]
fn blended_price_rounds_down() {
    let mut engine = BacktestEngine::new(10_000 * UNIT, 0);
    engine.process_order(buy("ACME", 1, 1, 1)).unwrap();
    engine.process_order(buy("ACME", 2, 2, 2)).unwrap();
    // (1 * 1 + 2 * 2) / 3 = 1.66.. millionths
    assert_eq!(engine.position("ACME").unwrap().avg_price, 1);
}

#[test]
fn partial_sell_keeps_the_average_price() {
    let mut engine = BacktestEngine::new(10_000 * UNIT, 0);
    engine.process_order(buy("ACME", 100 * UNIT, 10 * UNIT, 1)).unwrap();
    engine.process_order(sell("ACME", 120 * UNIT, 4 * UNIT, 2)).unwrap();
    let held = engine.position("ACME").unwrap();
    assert_eq!(held.quantity, 6 * UNIT);
    assert_eq!(held.avg_price, 100 * UNIT);
    assert_eq!(engine.current_capital(), 9_480 * UNIT);
}

#[test]
fn sell_without_position_is_rejected() {
    let mut engine = BacktestEngine::new(10_000 * UNIT, 1_000);
    engine.process_order(buy("ACME", 100 * UNIT, UNIT, 1)).unwrap();
    let cash = engine.current_capital();
    let r = engine.process_order(sell("BOLT", 100 * UNIT, UNIT, 2));
    assert_eq!(r.err(), Some(Rejection::NoPosition));
    assert_eq!(engine.current_capital(), cash);
    assert_eq!(engine.trades().len(), 1);
    assert_eq!(engine.position("ACME").unwrap().quantity, UNIT);
    assert!(engine.position("BOLT").is_none());
}

#[test]
fn oversell_is_rejected_whole() {
    let mut engine = BacktestEngine::new(10_000 * UNIT, 0);
    engine.process_order(buy("ACME", 100 * UNIT, 10 * UNIT, 1)).unwrap();
    let r = engine.process_order(sell("ACME", 100 * UNIT, 10 * UNIT + 1, 2));
    assert_eq!(r.err(), Some(Rejection::InsufficientPosition));
    assert_eq!(engine.current_capital(), 9_000 * UNIT);
    assert_eq!(engine.position("ACME").unwrap().quantity, 10 * UNIT);
    assert_eq!(engine.trades().len(), 1);
}

#[test]
fn buy_beyond_the_cash_is_rejected() {
    let mut engine = BacktestEngine::new(1_000 * UNIT, 1_000);
    // 1000 of notional and 1 of commission: one more than the cash.
    let r = engine.process_order(buy("ACME", 100 * UNIT, 10 * UNIT, 1));
    assert_eq!(r.err(), Some(Rejection::InsufficientCapital));
    assert_eq!(engine.current_capital(), 1_000 * UNIT);
    assert!(engine.position("ACME").is_none());
    assert!(engine.trades().is_empty());
}

#[test]
fn buy_of_exactly_the_cash_is_accepted() {
    let mut engine = BacktestEngine::new(1_001 * UNIT, 1_000);
    engine.process_order(buy("ACME", 100 * UNIT, 10 * UNIT, 1)).unwrap();
    assert_eq!(engine.current_capital(), 0);
}

#[test]
fn order_that_is_not_pending_is_rejected() {
    let mut engine = BacktestEngine::new(1_000 * UNIT, 0);
    let mut o = buy("ACME", UNIT, UNIT, 1);
    o.status = OrderStatus::Filled;
    assert_eq!(engine.process_order(o).err(), Some(Rejection::NotPending));
    let mut o = sell("ACME", UNIT, UNIT, 1);
    o.status = OrderStatus::Cancelled;
    assert_eq!(engine.process_order(o).err(), Some(Rejection::NotPending));
    assert!(engine.trades().is_empty());
}

#[test]
fn holding_beyond_the_range_is_rejected() {
    let mut engine = BacktestEngine::new(1_000 * UNIT, 0);
    engine.process_order(buy("ACME", 0, u64::MAX, 1)).unwrap();
    let r = engine.process_order(buy("ACME", 0, 1, 2));
    assert_eq!(r.err(), Some(Rejection::OutOfRange));
    assert_eq!(engine.position("ACME").unwrap().quantity, u64::MAX);
    assert_eq!(engine.trades().len(), 1);
}

#[test]
fn cash_beyond_the_range_is_rejected() {
    let mut engine = BacktestEngine::new(u64::MAX, 0);
    engine.process_order(buy("ACME", 0, UNIT, 1)).unwrap();
    let r = engine.process_order(sell("ACME", UNIT, UNIT, 2));
    assert_eq!(r.err(), Some(Rejection::OutOfRange));
    assert_eq!(engine.current_capital(), u64::MAX);
    assert_eq!(engine.position("ACME").unwrap().quantity, UNIT);
}

#[test]
fn notional_beyond_the_range_is_rejected() {
    let mut engine = BacktestEngine::new(1_000 * UNIT, 0);
    engine.process_order(buy("ACME", 0, u64::MAX, 1)).unwrap();
    let r = engine.process_order(sell("ACME", u64::MAX, u64::MAX, 2));
    assert_eq!(r.err(), Some(Rejection::OutOfRange));
    assert_eq!(engine.current_capital(), 1_000 * UNIT);
}

#[test]
fn selling_all_closes_the_position() {
    let mut engine = BacktestEngine::new(10_000 * UNIT, 0);
    engine.process_order(buy("ACME", 100 * UNIT, 10 * UNIT, 1)).unwrap();
    engine.process_order(buy("BOLT", 10 * UNIT, 10 * UNIT, 2)).unwrap();
    engine.process_order(sell("ACME", 100 * UNIT, 10 * UNIT, 3)).unwrap();
    assert!(engine.position("ACME").is_none());
    assert_eq!(engine.position("BOLT").unwrap().quantity, 10 * UNIT);
    let r = engine.process_order(sell("ACME", 100 * UNIT, UNIT, 4));
    assert_eq!(r.err(), Some(Rejection::NoPosition));
}
