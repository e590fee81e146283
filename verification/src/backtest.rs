//! A whole run: from bars, capital, commission rate and a named rule to the
//! summary of what the rule would have earned.
use vstd::prelude::*;
use crate::engine::BacktestEngine;
use crate::fixed::SCALE;
use crate::ledger::EngineState;
use crate::metrics::BacktestResult;
use crate::params::{
    count_or, count_param, fixed_or, fixed_param, json_number, DEFAULT_LONG_PERIOD,
    DEFAULT_PERIOD, DEFAULT_SHORT_PERIOD, DEFAULT_THRESHOLD,
};
use crate::strategy::{run_strategy, strategy_run, Strategy};
use crate::laws::all_valid;
use crate::types::{order_views, Bar, Order};

verus! {

/// Why a run could not start.
#[derive(Debug, Clone, Copy, PartialEq, Eq, Structural)]
pub enum BacktestError {
    /// The rule's name is not one that the library knows.
    InvalidStrategy,
}

/// The rule that a name and a JSON object of parameters select, or `None`
/// for a name that is not known. `sma_cross` reads `short_period` and
/// `long_period`; `momentum` reads `period` and `threshold`. Other keys are
/// not looked at, and a key that is missing or unreadable has its default.
pub open spec fn chosen_strategy(name: Seq<char>, payload: Seq<char>) -> Option<Strategy> {
    if name == "sma_cross"@ {
        Some(
            Strategy::SmaCross {
                short_period: count_or(
                    json_number(payload, "short_period"@),
                    DEFAULT_SHORT_PERIOD,
                ),
                long_period: count_or(json_number(payload, "long_period"@), DEFAULT_LONG_PERIOD),
            },
        )
    } else if name == "momentum"@ {
        Some(
            Strategy::Momentum {
                period: count_or(json_number(payload, "period"@), DEFAULT_PERIOD),
                threshold: fixed_or(json_number(payload, "threshold"@), DEFAULT_THRESHOLD),
            },
        )
    } else {
        None
    }
}

/// The summary of running `strategy` over `bars` from fresh books.
pub open spec fn backtest_outcome(
    bars: Seq<Bar>,
    initial_capital: nat,
    commission_rate: nat,
    strategy: Strategy,
) -> crate::metrics::Summary {
    strategy_run(EngineState::fresh(initial_capital, commission_rate), bars, strategy).summary()
}

/// Selects a rule by name, with its parameters read from a JSON object.
pub fn select_strategy(name: &str, params: &str) -> (r: Result<Strategy, BacktestError>)
    ensures
        match r {
            Ok(s) => chosen_strategy(name@, params@) == Some(s),
            Err(e) => chosen_strategy(name@, params@) is None && e
                == BacktestError::InvalidStrategy,
        },
{
    let given = name.to_owned();
    if given == "sma_cross".to_owned() {
        let short_period = count_param(params, "short_period", DEFAULT_SHORT_PERIOD);
        let long_period = count_param(params, "long_period", DEFAULT_LONG_PERIOD);
        Ok(Strategy::SmaCross { short_period, long_period })
    } else if given == "momentum".to_owned() {
        let period = count_param(params, "period", DEFAULT_PERIOD);
        let threshold = fixed_param(params, "threshold", DEFAULT_THRESHOLD);
        Ok(Strategy::Momentum { period, threshold })
    } else {
        Err(BacktestError::InvalidStrategy)
    }
}

/// Runs `strategy` over `bars` from fresh books and summarises the run.
pub fn run_backtest(
    bars: &Vec<Bar>,
    initial_capital: u64,
    commission_rate: u64,
    strategy: Strategy,
) -> (r: BacktestResult)
    requires
        initial_capital > 0,
        commission_rate < SCALE,
    ensures
        r@ == backtest_outcome(bars@, initial_capital as nat, commission_rate as nat, strategy),
{
    let mut engine = BacktestEngine::new(initial_capital, commission_rate);
    run_strategy(&mut engine, bars, strategy);
    engine.calculate_result()
}

/// Runs the rule named `strategy`, with the parameters of the JSON object
/// `params`, over `klines`. A name that is not known fails before any bar
/// is looked at; parameters that cannot be read fall back to their defaults.
pub fn simple_backtest(
    klines: &Vec<Bar>,
    initial_capital: u64,
    commission_rate: u64,
    strategy: &str,
    params: &str,
) -> (r: Result<BacktestResult, BacktestError>)
    requires
        initial_capital > 0,
        commission_rate < SCALE,
    ensures
        match r {
            Ok(result) => chosen_strategy(strategy@, params@) matches Some(s) && result@
                == backtest_outcome(klines@, initial_capital as nat, commission_rate as nat, s),
            Err(e) => chosen_strategy(strategy@, params@) is None && e
                == BacktestError::InvalidStrategy,
        },
{
    match select_strategy(strategy, params) {
        Ok(s) => Ok(run_backtest(klines, initial_capital, commission_rate, s)),
        Err(e) => Err(e),
    }
}

/// Hands a run of orders, one by one, to fresh books and summarises what
/// they leave. The result depends on the capital, the rate and the orders
/// alone.
pub fn replay_orders(initial_capital: u64, commission_rate: u64, orders: &Vec<Order>) -> (r:
    BacktestResult)
    requires
        initial_capital > 0,
        commission_rate < SCALE,
        all_valid(order_views(orders@)),
    ensures
        r@ == EngineState::fresh(initial_capital as nat, commission_rate as nat).run(
            order_views(orders@),
        ).summary(),
{
    let mut engine = BacktestEngine::new(initial_capital, commission_rate);
    let ghost start = engine@;
    let ghost views = order_views(orders@);
    let mut i: usize = 0;
    assert(views.take(0) =~= Seq::empty());
    while i < orders.len()
        invariant
            i <= orders@.len(),
            views == order_views(orders@),
            all_valid(views),
            engine.wf(),
            engine@ == start.run(views.take(i as int)),
        decreases orders@.len() - i,
    {
        let order = orders[i].clone();
        proof {
            assert(views[i as int] == order@);
            assert(views.take(i + 1).drop_last() =~= views.take(i as int));
            assert(views.take(i + 1).last() == views[i as int]);
        }
        let _ = engine.process_order(order);
        i += 1;
    }
    assert(views.take(orders@.len() as int) =~= views);
    engine.calculate_result()
}

} // verus!
