use tacn_backtest::{replay_orders, BacktestEngine, Order, OrderStatus, TradeType};

const UNIT: u64 = 1_000_000;

fn order(symbol: &str, side: TradeType, price: u64, quantity: u64, timestamp: i64) -> Order {
    Order {
        id: format!("o{}", timestamp),
        symbol: symbol.to_string(),
        trade_type: side,
        price,
        quantity,
        timestamp,
        status: OrderStatus::Pending,
    }
}

fn orders() -> Vec<Order> {
    vec![
        order("ACME", TradeType::Buy, 100 * UNIT, 10 * UNIT, 1),
        order("BOLT", TradeType::Sell, 100 * UNIT, 10 * UNIT, 2),
        order("ACME", TradeType::Sell, 105 * UNIT, 4 * UNIT, 3),
        order("ACME", TradeType::Buy, 90 * UNIT, 1_000 * UNIT, 4),
        order("BOLT", TradeType::Buy, 7 * UNIT, 33 * UNIT, 5),
        order("ACME", TradeType::Sell, 95 * UNIT, 6 * UNIT, 6),
        order("BOLT", TradeType::Sell, 9 * UNIT, 33 * UNIT, 7),
    ]
}

#[test]
fn replaying_the_same_orders_gives_the_same_result() {
    let first = replay_orders(10_000 * UNIT, 1_500, &orders());
    let second = replay_orders(10_000 * UNIT, 1_500, &orders());
    assert_eq!(first, second);
    assert_eq!(first.total_trades, 5);
}

#[test]
fn replay_agrees_with_an_engine_driven_by_hand() {
    let mut engine = BacktestEngine::new(10_000 * UNIT, 1_500);
    let mut accepted = 0;
    for o in orders() {
        if engine.process_order(o).is_ok() {
            accepted += 1;
        }
    }
    assert_eq!(accepted, 5);
    assert_eq!(engine.calculate_result(), replay_orders(10_000 * UNIT, 1_500, &orders()));
}

#[test]
fn cash_is_the_capital_plus_the_effects_of_the_log() {
    let mut engine = BacktestEngine::new(10_000 * UNIT, 1_500);
    for o in orders() {
        let _ = engine.process_order(o);
    }
    let mut cash: i128 = engine.capital() as i128;
    for t in engine.trades() {
        let notional = (t.price as i128) * (t.quantity as i128) / (UNIT as i128);
        assert_eq!(t.commission as i128, notional * 1_500 / (UNIT as i128));
        match t.trade_type {
            TradeType::Buy => cash -= notional + t.commission as i128,
            TradeType::Sell => cash += notional - t.commission as i128,
        }
        assert!(cash >= 0);
    }
    assert_eq!(cash, engine.current_capital() as i128);
}
