//! The signal rules: how a price series is turned, bar by bar, into orders
//! for the engine.
use vstd::prelude::*;
use crate::average::{calculate_sma, closes, trailing_average};
use crate::engine::BacktestEngine;
use crate::fixed::SCALE;
use crate::ledger::EngineState;
use crate::types::{Bar, Order, OrderStatus, OrderView, TradeType};

verus! {

/// A signal rule with its parameters.
#[derive(Debug, Clone, Copy, PartialEq, Eq, Structural)]
pub enum Strategy {
    /// Buy when the short moving average stands above the long one, sell
    /// when it stands below.
    SmaCross { short_period: usize, long_period: usize },
    /// Buy when the price has risen by more than `threshold` over `period`
    /// bars, sell when it has fallen by more.
    Momentum { period: usize, threshold: i64 },
}

/// The symbol that the rules trade.
pub open spec fn traded_symbol() -> Seq<char> {
    "TEST"@
}

/// The quantity a rule buys at `close`: 95 percent of the starting capital
/// over the price, rounded down. `None` at a price of zero, and where the
/// quantity would be zero or would not fit in 64 bits.
pub open spec fn buy_size(starting_capital: nat, close: nat) -> Option<nat> {
    if close == 0 {
        None
    } else {
        let quantity = ((starting_capital * 95 * SCALE) / ((100 * close) as int)) as nat;
        if quantity == 0 || quantity > u64::MAX {
            None
        } else {
            Some(quantity)
        }
    }
}

/// The order a rule places at a bar: pending, for the traded symbol, at the
/// bar's close and time.
pub open spec fn signal_order(side: TradeType, bar: Bar, quantity: nat) -> OrderView {
    OrderView {
        symbol: traded_symbol(),
        trade_type: side,
        price: bar.close as nat,
        quantity,
        timestamp: bar.timestamp as int,
        status: OrderStatus::Pending,
    }
}

/// The books after a rule buys at `bar`. Nothing is ordered where no
/// quantity can be sized.
pub open spec fn buy_at(books: EngineState, bar: Bar) -> EngineState {
    match buy_size(books.starting_capital, bar.close as nat) {
        Some(quantity) => books.step(signal_order(TradeType::Buy, bar, quantity)),
        None => books,
    }
}

/// The books after a rule sells all it holds at `bar`. Nothing is ordered
/// where nothing is held.
pub open spec fn sell_all_at(books: EngineState, bar: Bar) -> EngineState {
    if books.holds(traded_symbol()) {
        books.step(signal_order(TradeType::Sell, bar, books.held(traded_symbol())))
    } else {
        books
    }
}

/// The crossover rule between two bars: the books, and whether the rule
/// counts itself as invested.
pub struct CrossState {
    pub books: EngineState,
    pub in_position: bool,
}

/// What the crossover rule does at bar `i`. Bars before index `long_period`
/// are passed over, and so is a bar at which either average is missing.
/// Above the long average the rule buys, unless it counts itself invested;
/// below it the rule sells all, if it does. It changes its count whether or
/// not the engine accepts the order.
pub open spec fn sma_cross_step(
    st: CrossState,
    bars: Seq<Bar>,
    i: int,
    short_period: int,
    long_period: int,
) -> CrossState {
    if i < long_period {
        st
    } else {
        match (
            trailing_average(closes(bars), i, short_period),
            trailing_average(closes(bars), i, long_period),
        ) {
            (Some(short), Some(long)) => {
                if short > long && !st.in_position {
                    CrossState { books: buy_at(st.books, bars[i]), in_position: true }
                } else if short < long && st.in_position {
                    CrossState { books: sell_all_at(st.books, bars[i]), in_position: false }
                } else {
                    st
                }
            },
            _ => st,
        }
    }
}

/// The crossover rule after the first `k` bars, from books `books`.
pub open spec fn sma_cross_run(
    books: EngineState,
    bars: Seq<Bar>,
    short_period: int,
    long_period: int,
    k: int,
) -> CrossState
    decreases k,
{
    if k <= 0 {
        CrossState { books, in_position: false }
    } else {
        sma_cross_step(
            sma_cross_run(books, bars, short_period, long_period, k - 1),
            bars,
            k - 1,
            short_period,
            long_period,
        )
    }
}

/// Whether the price rose from `before` to `now` by more than the fraction
/// `threshold`: `(now - before) / before > threshold`, compared without
/// dividing.
pub open spec fn rises_above(before: int, now: int, threshold: int) -> bool {
    (now - before) * SCALE > threshold * before
}

/// Whether the price fell from `before` to `now` by more than the fraction
/// `threshold`: `(now - before) / before < -threshold`, compared without
/// dividing.
pub open spec fn falls_below(before: int, now: int, threshold: int) -> bool {
    (now - before) * SCALE < -threshold * before
}

/// What the momentum rule does at bar `i`. Bars before index `period` are
/// passed over. On a rise above the threshold the rule buys, unless the
/// symbol is held; on a fall below it the rule sells all that is held.
pub open spec fn momentum_step(
    books: EngineState,
    bars: Seq<Bar>,
    i: int,
    period: int,
    threshold: int,
) -> EngineState {
    if i < period {
        books
    } else if rises_above(bars[i - period].close as int, bars[i].close as int, threshold) {
        if books.holds(traded_symbol()) {
            books
        } else {
            buy_at(books, bars[i])
        }
    } else if falls_below(bars[i - period].close as int, bars[i].close as int, threshold) {
        sell_all_at(books, bars[i])
    } else {
        books
    }
}

/// The momentum rule after the first `k` bars, from books `books`.
pub open spec fn momentum_run(
    books: EngineState,
    bars: Seq<Bar>,
    period: int,
    threshold: int,
    k: int,
) -> EngineState
    decreases k,
{
    if k <= 0 {
        books
    } else {
        momentum_step(momentum_run(books, bars, period, threshold, k - 1), bars, k - 1, period, threshold)
    }
}

/// The books after a rule has seen every bar.
pub open spec fn strategy_run(books: EngineState, bars: Seq<Bar>, strategy: Strategy) -> EngineState {
    match strategy {
        Strategy::SmaCross { short_period, long_period } => sma_cross_run(
            books,
            bars,
            short_period as int,
            long_period as int,
            bars.len() as int,
        ).books,
        Strategy::Momentum { period, threshold } => momentum_run(
            books,
            bars,
            period as int,
            threshold as int,
            bars.len() as int,
        ),
    }
}

/// Renders the identifier of an order, `prefix`, an underscore and `index`,
/// through `format!`. Nothing is claimed of the text: the engine does not
/// read it.
#[verifier::external_body]
fn order_id(prefix: &str, index: usize) -> String {
    format!("{}_{}", prefix, index)
}

/// Sizes a buy at `close`.
pub fn buy_quantity(starting_capital: u64, close: u64) -> (r: Option<u64>)
    ensures
        match r {
            Some(q) => buy_size(starting_capital as nat, close as nat) == Some(q as nat),
            None => buy_size(starting_capital as nat, close as nat) is None,
        },
{
    if close == 0 {
        return None;
    }
    assert(starting_capital * 95 * SCALE == starting_capital * 95_000_000) by (nonlinear_arith)
        requires
            SCALE == 1_000_000,
    ;
    let budget: u128 = (starting_capital as u128) * 95_000_000;
    let quantity: u128 = budget / (100 * (close as u128));
    if quantity == 0 || quantity > u64::MAX as u128 {
        None
    } else {
        Some(quantity as u64)
    }
}

/// Places the buy of a rule at `bar`.
fn place_buy(engine: &mut BacktestEngine, bar: &Bar, index: usize)
    requires
        old(engine).wf(),
    ensures
        final(engine).wf(),
        final(engine)@ == buy_at(old(engine)@, *bar),
{
    match buy_quantity(engine.capital(), bar.close) {
        Some(quantity) => {
            let order = Order {
                id: order_id("buy", index),
                symbol: "TEST".to_owned(),
                trade_type: TradeType::Buy,
                price: bar.close,
                quantity,
                timestamp: bar.timestamp,
                status: OrderStatus::Pending,
            };
            assert(order@ == signal_order(TradeType::Buy, *bar, quantity as nat));
            let _ = engine.process_order(order);
        },
        None => {},
    }
}

/// Places the sell of a rule at `bar`, for all that is held.
fn place_sell(engine: &mut BacktestEngine, bar: &Bar, index: usize)
    requires
        old(engine).wf(),
    ensures
        final(engine).wf(),
        final(engine)@ == sell_all_at(old(engine)@, *bar),
{
    let held: Option<u64> = match engine.position("TEST") {
        Some(p) => Some(p.quantity),
        None => None,
    };
    match held {
        Some(quantity) => {
            proof {
                engine.lemma_wf();
            }
            let order = Order {
                id: order_id("sell", index),
                symbol: "TEST".to_owned(),
                trade_type: TradeType::Sell,
                price: bar.close,
                quantity,
                timestamp: bar.timestamp,
                status: OrderStatus::Pending,
            };
            assert(order@ == signal_order(TradeType::Sell, *bar, quantity as nat));
            let _ = engine.process_order(order);
        },
        None => {},
    }
}

/// Runs the crossover rule over `bars`.
pub fn run_sma_cross(
    engine: &mut BacktestEngine,
    bars: &Vec<Bar>,
    short_period: usize,
    long_period: usize,
)
    requires
        old(engine).wf(),
    ensures
        final(engine).wf(),
        final(engine)@ == sma_cross_run(
            old(engine)@,
            bars@,
            short_period as int,
            long_period as int,
            bars@.len() as int,
        ).books,
{
    let short_sma = calculate_sma(bars, short_period);
    let long_sma = calculate_sma(bars, long_period);
    let ghost start = engine@;
    let mut in_position = false;
    let mut i: usize = 0;
    while i < bars.len()
        invariant
            i <= bars@.len(),
            engine.wf(),
            short_sma@.len() == bars@.len(),
            long_sma@.len() == bars@.len(),
            forall|j: int|
                0 <= j < bars@.len() ==> match #[trigger] short_sma@[j] {
                    Some(a) => trailing_average(closes(bars@), j, short_period as int) == Some(
                        a as int,
                    ),
                    None => trailing_average(closes(bars@), j, short_period as int) is None,
                },
            forall|j: int|
                0 <= j < bars@.len() ==> match #[trigger] long_sma@[j] {
                    Some(a) => trailing_average(closes(bars@), j, long_period as int) == Some(
                        a as int,
                    ),
                    None => trailing_average(closes(bars@), j, long_period as int) is None,
                },
            sma_cross_run(start, bars@, short_period as int, long_period as int, i as int)
                == (CrossState { books: engine@, in_position }),
        decreases bars@.len() - i,
    {
        if i >= long_period {
            let short = short_sma[i];
            let long = long_sma[i];
            match (short, long) {
                (Some(s), Some(l)) => {
                    if s > l && !in_position {
                        place_buy(engine, &bars[i], i);
                        in_position = true;
                    } else if s < l && in_position {
                        place_sell(engine, &bars[i], i);
                        in_position = false;
                    }
                },
                _ => {},
            }
        }
        i += 1;
    }
}

/// Runs the momentum rule over `bars`.
pub fn run_momentum(engine: &mut BacktestEngine, bars: &Vec<Bar>, period: usize, threshold: i64)
    requires
        old(engine).wf(),
    ensures
        final(engine).wf(),
        final(engine)@ == momentum_run(
            old(engine)@,
            bars@,
            period as int,
            threshold as int,
            bars@.len() as int,
        ),
{
    let ghost start = engine@;
    let mut i: usize = 0;
    while i < bars.len()
        invariant
            i <= bars@.len(),
            engine.wf(),
            momentum_run(start, bars@, period as int, threshold as int, i as int) == engine@,
        decreases bars@.len() - i,
    {
        if i >= period {
            let before: u64 = bars[i - period].close;
            let now: u64 = bars[i].close;
            assert(threshold * before <= 0x8000_0000_0000_0000 * 0xffff_ffff_ffff_ffff
                && threshold * before >= -0x8000_0000_0000_0000 * 0xffff_ffff_ffff_ffff)
                by (nonlinear_arith)
                requires
                    -0x8000_0000_0000_0000 <= threshold <= 0x8000_0000_0000_0000,
                    0 <= before <= 0xffff_ffff_ffff_ffff,
            ;
            assert((-threshold) * before == -(threshold * before)) by (nonlinear_arith);
            assert((now - before) * SCALE == (now - before) * 1_000_000) by (nonlinear_arith)
                requires
                    SCALE == 1_000_000,
            ;
            let change: i128 = ((now as i128) - (before as i128)) * 1_000_000;
            let bound: i128 = (threshold as i128) * (before as i128);
            if change > bound {
                if engine.position("TEST").is_none() {
                    place_buy(engine, &bars[i], i);
                }
            } else if change < -bound {
                place_sell(engine, &bars[i], i);
            }
        }
        i += 1;
    }
}

/// Runs a rule over `bars`, handing each order to the engine as it arises.
pub fn run_strategy(engine: &mut BacktestEngine, bars: &Vec<Bar>, strategy: Strategy)
    requires
        old(engine).wf(),
    ensures
        final(engine).wf(),
        final(engine)@ == strategy_run(old(engine)@, bars@, strategy),
{
    match strategy {
        Strategy::SmaCross { short_period, long_period } => {
            run_sma_cross(engine, bars, short_period, long_period);
        },
        Strategy::Momentum { period, threshold } => {
            run_momentum(engine, bars, period, threshold);
        },
    }
}

} // verus!
