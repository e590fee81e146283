//! The fixed-point engine held against the same rules worked in floats.

use std::collections::HashMap;
use tacn_backtest::{run_backtest, BacktestResult, Bar, Strategy};

const UNIT: f64 = 1_000_000.0;

#[derive(Clone, Copy, PartialEq)]
enum Side {
    Buy,
    Sell,
}

#[derive(Clone)]
struct FloatTrade {
    side: Side,
    price: f64,
    quantity: f64,
    timestamp: i64,
    commission: f64,
}

struct FloatEngine {
    capital: f64,
    current: f64,
    rate: f64,
    positions: HashMap<String, (f64, f64)>,
    trades: Vec<FloatTrade>,
}

struct FloatSummary {
    total_trades: usize,
    winning_trades: usize,
    losing_trades: usize,
    total_return: f64,
    max_drawdown: f64,
    sharpe_ratio: f64,
    win_rate: f64,
    final_capital: f64,
}

impl FloatEngine {
    fn new(capital: f64, rate: f64) -> FloatEngine {
        FloatEngine { capital, current: capital, rate, positions: HashMap::new(), trades: Vec::new() }
    }

    fn process(&mut self, side: Side, price: f64, quantity: f64, timestamp: i64) -> bool {
        let commission = price * quantity * self.rate;
        match side {
            Side::Buy => {
                let cost = price * quantity + commission;
                if cost > self.current {
                    return false;
                }
                self.current -= cost;
                let p = self.positions.entry("TEST".to_string()).or_insert((0.0, 0.0));
                let total = p.1 * p.0 + price * quantity;
                p.0 += quantity;
                p.1 = total / p.0;
            }
            Side::Sell => match self.positions.get_mut("TEST") {
                Some(p) => {
                    if p.0 < quantity {
                        return false;
                    }
                    self.current += price * quantity - commission;
                    p.0 -= quantity;
                    if p.0 <= 0.0 {
                        self.positions.remove("TEST");
                    }
                }
                None => return false,
            },
        }
        self.trades.push(FloatTrade { side, price, quantity, timestamp, commission });
        true
    }

    fn max_drawdown(&self) -> f64 {
        let mut peak = self.capital;
        let mut worst = 0.0;
        let mut cash = self.capital;
        for t in &self.trades {
            match t.side {
                Side::Buy => cash -= t.price * t.quantity + t.commission,
                Side::Sell => cash += t.price * t.quantity - t.commission,
            }
            if cash > peak {
                peak = cash;
            }
            let drawdown = (peak - cash) / peak * 100.0;
            if drawdown > worst {
                worst = drawdown;
            }
        }
        worst
    }

    fn summary(&self) -> FloatSummary {
        let mut wins = 0;
        for t in &self.trades {
            if t.side == Side::Sell {
                for b in &self.trades {
                    if b.side == Side::Buy && b.timestamp < t.timestamp {
                        let pnl = (t.price - b.price) * t.quantity - t.commission - b.commission;
                        if pnl > 0.0 {
                            wins += 1;
                        }
                        break;
                    }
                }
            }
        }
        let sells = self.trades.iter().filter(|t| t.side == Side::Sell).count();
        let win_rate = if sells > 0 { wins as f64 / sells as f64 * 100.0 } else { 0.0 };
        let mut returns = Vec::new();
        for pair in self.trades.chunks(2) {
            if pair.len() == 2 && pair[0].side == Side::Buy && pair[1].side == Side::Sell {
                let pnl = (pair[1].price - pair[0].price) * pair[1].quantity
                    - pair[1].commission
                    - pair[0].commission;
                returns.push(pnl / self.capital);
            }
        }
        let sharpe_ratio = if returns.len() > 1 {
            let mean = returns.iter().sum::<f64>() / returns.len() as f64;
            let variance =
                returns.iter().map(|r| (r - mean) * (r - mean)).sum::<f64>() / returns.len() as f64;
            if variance > 0.0 {
                mean / variance.sqrt()
            } else {
                0.0
            }
        } else {
            0.0
        };
        FloatSummary {
            total_trades: self.trades.len(),
            winning_trades: wins,
            losing_trades: sells - wins,
            total_return: (self.current / self.capital - 1.0) * 100.0,
            max_drawdown: self.max_drawdown(),
            sharpe_ratio,
            win_rate,
            final_capital: self.current,
        }
    }
}

fn trailing(closes: &[f64], i: usize, period: usize) -> Option<f64> {
    if period == 0 || i + 1 < period {
        None
    } else {
        Some(closes[i + 1 - period..=i].iter().sum::<f64>() / period as f64)
    }
}

fn float_crossover(closes: &[f64], capital: f64, rate: f64, short: usize, long: usize) -> FloatSummary {
    let mut engine = FloatEngine::new(capital, rate);
    let mut invested = false;
    for i in long..closes.len() {
        if let (Some(s), Some(l)) = (trailing(closes, i, short), trailing(closes, i, long)) {
            if s > l && !invested {
                engine.process(Side::Buy, closes[i], capital * 0.95 / closes[i], i as i64);
                invested = true;
            } else if s < l && invested {
                if let Some(p) = engine.positions.get("TEST").copied() {
                    engine.process(Side::Sell, closes[i], p.0, i as i64);
                }
                invested = false;
            }
        }
    }
    engine.summary()
}

fn float_momentum(closes: &[f64], capital: f64, rate: f64, period: usize, threshold: f64) -> FloatSummary {
    let mut engine = FloatEngine::new(capital, rate);
    for i in period..closes.len() {
        let momentum = (closes[i] - closes[i - period]) / closes[i - period];
        if momentum > threshold {
            if !engine.positions.contains_key("TEST") {
                engine.process(Side::Buy, closes[i], capital * 0.95 / closes[i], i as i64);
            }
        } else if momentum < -threshold {
            if let Some(p) = engine.positions.get("TEST").copied() {
                engine.process(Side::Sell, closes[i], p.0, i as i64);
            }
        }
    }
    engine.summary()
}

/// Prices between 50 and 150, in whole cents, from a fixed seed.
fn series(seed: u64, len: usize) -> Vec<f64> {
    let mut state = seed;
    let mut price: i64 = 10_000;
    let mut out = Vec::new();
    for _ in 0..len {
        state = state.wrapping_mul(6364136223846793005).wrapping_add(1442695040888963407);
        let step = ((state >> 33) % 801) as i64 - 400;
        price = (price + step).clamp(5_000, 15_000);
        out.push(price as f64 / 100.0);
    }
    out
}

fn bars(closes: &[f64]) -> Vec<Bar> {
    closes
        .iter()
        .enumerate()
        .map(|(i, c)| {
            let raw = (c * UNIT).round() as u64;
            Bar { timestamp: i as i64, open: raw, high: raw, low: raw, close: raw, volume: 0 }
        })
        .collect()
}

fn close_to(fixed: f64, float: f64, tolerance: f64) -> bool {
    (fixed - float).abs() <= tolerance * (1.0 + float.abs())
}

fn agree(fixed: &BacktestResult, float: &FloatSummary) {
    assert_eq!(fixed.total_trades, float.total_trades);
    assert_eq!(fixed.winning_trades, float.winning_trades);
    assert_eq!(fixed.losing_trades, float.losing_trades);
    assert!(close_to(fixed.final_capital as f64 / UNIT, float.final_capital, 1e-6));
    assert!(close_to(fixed.total_return as f64 / UNIT, float.total_return, 1e-5));
    assert!(close_to(fixed.max_drawdown as f64 / UNIT, float.max_drawdown, 1e-5));
    assert!(close_to(fixed.win_rate as f64 / UNIT, float.win_rate, 1e-5));
    assert!(
        close_to(fixed.sharpe_ratio.unwrap() as f64 / UNIT, float.sharpe_ratio, 1e-5),
        "{:?} against {} over {} trades",
        fixed.sharpe_ratio,
        float.sharpe_ratio,
        float.total_trades
    );
}

#[test]
fn crossover_agrees_with_floats() {
    let mut traded = 0;
    for seed in 1..=40u64 {
        let closes = series(seed, 300);
        for (rate, raw_rate) in [(0.0, 0), (0.001, 1_000), (0.0003, 300)] {
            let fixed = run_backtest(
                &bars(&closes),
                10_000_000_000,
                raw_rate,
                Strategy::SmaCross { short_period: 2, long_period: 8 },
            );
            let float = float_crossover(&closes, 10_000.0, rate, 2, 8);
            agree(&fixed, &float);
            traded += fixed.total_trades;
        }
    }
    assert!(traded > 1_000);
}

#[test]
fn momentum_agrees_with_floats() {
    let mut traded = 0;
    for seed in 1..=40u64 {
        let closes = series(seed + 100, 300);
        for (rate, raw_rate) in [(0.0, 0), (0.001, 1_000)] {
            let fixed = run_backtest(
                &bars(&closes),
                25_000_000_000,
                raw_rate,
                Strategy::Momentum { period: 3, threshold: 20_001 },
            );
            let float = float_momentum(&closes, 25_000.0, rate, 3, 0.020001);
            agree(&fixed, &float);
            traded += fixed.total_trades;
        }
    }
    assert!(traded > 500);
}
