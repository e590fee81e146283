//! A backtesting engine over fixed-point amounts.
//!
//! The engine keeps the books of one run: cash, holdings and the log of
//! trades. Orders are handed to it one by one; each is applied whole or
//! turned down with the books untouched. Signal rules turn a price series
//! into orders, and the metrics summarise the finished run. Every amount is
//! an integer count of millionths.
pub mod average;
pub mod backtest;
pub mod decimal;
pub mod engine;
pub mod fixed;
pub mod laws;
pub mod ledger;
pub mod metrics;
pub mod params;
pub mod strategy;
pub mod types;

pub use average::{calculate_sma, ema, sma};
pub use backtest::{replay_orders, run_backtest, select_strategy, simple_backtest, BacktestError};
pub use engine::BacktestEngine;
pub use fixed::SCALE;
pub use metrics::BacktestResult;
pub use strategy::Strategy;
pub use types::{Bar, Order, OrderStatus, Position, Rejection, Trade, TradeType};
