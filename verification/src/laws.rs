//! What holds of the ledger whatever orders it is handed.
use vstd::prelude::*;
use crate::fixed::SCALE;
use crate::ledger::{
    balance_after, buy_cost, commission_on, lemma_settle_valid, lemma_step_valid, notional,
    EngineState,
};
use crate::metrics::{sells_upto, wins_upto, BacktestResult};
use crate::strategy::{momentum_run, sma_cross_run, CrossState};
use crate::types::{Bar, OrderStatus, OrderView, Rejection, TradeType, TradeView};

verus! {

/// Every order of the run is valid.
pub open spec fn all_valid(orders: Seq<OrderView>) -> bool {
    forall|i: int| 0 <= i < orders.len() ==> (#[trigger] orders[i]).valid()
}

/// Every order of the run is a buy.
pub open spec fn all_buys(orders: Seq<OrderView>) -> bool {
    forall|i: int| 0 <= i < orders.len() ==> (#[trigger] orders[i]).trade_type == TradeType::Buy
}

/// Every order of the run is accepted when its turn comes, from books `s`.
pub open spec fn all_accepted(s: EngineState, orders: Seq<OrderView>) -> bool
    decreases orders.len(),
{
    orders.len() == 0 || (all_accepted(s, orders.drop_last()) && s.run(
        orders.drop_last(),
    ).verdict(orders.last()) is None)
}

/// What a run of buys costs at `rate`, commissions included.
pub open spec fn total_cost(orders: Seq<OrderView>, rate: nat) -> nat
    decreases orders.len(),
{
    if orders.len() == 0 {
        0
    } else {
        total_cost(orders.drop_last(), rate) + buy_cost(
            orders.last().price,
            orders.last().quantity,
            rate,
        )
    }
}

/// The number of orders for `symbol` in a run.
pub open spec fn fills_of(orders: Seq<OrderView>, symbol: Seq<char>) -> nat
    decreases orders.len(),
{
    if orders.len() == 0 {
        0
    } else if orders.last().symbol == symbol {
        fills_of(orders.drop_last(), symbol) + 1
    } else {
        fills_of(orders.drop_last(), symbol)
    }
}

/// The quantity ordered of `symbol` in a run.
pub open spec fn quantity_of(orders: Seq<OrderView>, symbol: Seq<char>) -> nat
    decreases orders.len(),
{
    if orders.len() == 0 {
        0
    } else if orders.last().symbol == symbol {
        quantity_of(orders.drop_last(), symbol) + orders.last().quantity
    } else {
        quantity_of(orders.drop_last(), symbol)
    }
}

/// The sum of price times quantity over the orders for `symbol` in a run,
/// unscaled and unrounded.
pub open spec fn outlay_of(orders: Seq<OrderView>, symbol: Seq<char>) -> nat
    decreases orders.len(),
{
    if orders.len() == 0 {
        0
    } else if orders.last().symbol == symbol {
        outlay_of(orders.drop_last(), symbol) + orders.last().price * orders.last().quantity
    } else {
        outlay_of(orders.drop_last(), symbol)
    }
}

/// The notional that a log moved into the cash, sells counted up and buys
/// down, over its first `k` trades.
pub open spec fn net_notional(trades: Seq<TradeView>, k: int) -> int
    decreases k,
{
    if k <= 0 {
        0
    } else {
        net_notional(trades, k - 1) + match trades[k - 1].trade_type {
            TradeType::Buy => -(notional(trades[k - 1].price, trades[k - 1].quantity) as int),
            TradeType::Sell => notional(trades[k - 1].price, trades[k - 1].quantity) as int,
        }
    }
}

/// The commissions of the first `k` trades of a log.
pub open spec fn commissions(trades: Seq<TradeView>, k: int) -> nat
    decreases k,
{
    if k <= 0 {
        0
    } else {
        commissions(trades, k - 1) + trades[k - 1].commission
    }
}

/// Consistent books stay consistent over any run of valid orders.
pub proof fn lemma_run_valid(s: EngineState, orders: Seq<OrderView>)
    requires
        s.valid(),
        all_valid(orders),
    ensures
        s.run(orders).valid(),
    decreases orders.len(),
{
    if orders.len() > 0 {
        let init = orders.drop_last();
        assert forall|i: int| 0 <= i < init.len() implies (#[trigger] init[i]).valid() by {
            assert(init[i] == orders[i]);
        }
        lemma_run_valid(s, init);
        assert(orders.last() == orders[orders.len() - 1]);
        lemma_step_valid(s.run(init), orders.last());
    }
}

/// A run without an order for a symbol orders no quantity of it, at no
/// outlay.
pub proof fn lemma_no_fills(orders: Seq<OrderView>, symbol: Seq<char>)
    requires
        fills_of(orders, symbol) == 0,
    ensures
        quantity_of(orders, symbol) == 0,
        outlay_of(orders, symbol) == 0,
    decreases orders.len(),
{
    if orders.len() > 0 {
        lemma_no_fills(orders.drop_last(), symbol);
    }
}

/// A run of buys, each accepted, leaves in cash the starting capital less
/// the price times quantity plus commission of every one of them.
pub proof fn law_buys_spend_their_cost(capital: nat, rate: nat, orders: Seq<OrderView>)
    requires
        EngineState::fresh(capital, rate).valid(),
        all_valid(orders),
        all_buys(orders),
        all_accepted(EngineState::fresh(capital, rate), orders),
    ensures
        EngineState::fresh(capital, rate).run(orders).current_capital == capital - total_cost(
            orders,
            rate,
        ),
        EngineState::fresh(capital, rate).run(orders).commission_rate == rate,
    decreases orders.len(),
{
    let s = EngineState::fresh(capital, rate);
    if orders.len() > 0 {
        let init = orders.drop_last();
        let o = orders.last();
        assert forall|i: int| 0 <= i < init.len() implies (#[trigger] init[i]).valid()
            && init[i].trade_type == TradeType::Buy by {
            assert(init[i] == orders[i]);
        }
        assert(o == orders[orders.len() - 1]);
        law_buys_spend_their_cost(capital, rate, init);
        lemma_run_valid(s, init);
        lemma_settle_valid(s.run(init), o);
    }
}

/// After a run of buys, each accepted, the holding of a symbol is the
/// quantity bought of it, and its average price is the cost-weighted mean
/// of the fills, short of it by less than one millionth for each fill after
/// the first: the average times the quantity held is at most the summed
/// price times quantity of the fills, and lies below it by at most the
/// quantity held for each fill but one.
pub proof fn law_average_price_is_weighted_mean(
    capital: nat,
    rate: nat,
    orders: Seq<OrderView>,
    symbol: Seq<char>,
)
    requires
        EngineState::fresh(capital, rate).valid(),
        all_valid(orders),
        all_buys(orders),
        all_accepted(EngineState::fresh(capital, rate), orders),
    ensures
        EngineState::fresh(capital, rate).run(orders).held(symbol) == quantity_of(orders, symbol),
        EngineState::fresh(capital, rate).run(orders).holds(symbol) <==> fills_of(orders, symbol)
            > 0,
        fills_of(orders, symbol) > 0 ==> {
            let end = EngineState::fresh(capital, rate).run(orders);
            &&& end.avg_price(symbol) * end.held(symbol) <= outlay_of(orders, symbol)
            &&& outlay_of(orders, symbol) - end.avg_price(symbol) * end.held(symbol) <= (fills_of(
                orders,
                symbol,
            ) - 1) * end.held(symbol)
        },
        fills_of(orders, symbol) == 1 ==> EngineState::fresh(capital, rate).run(
            orders,
        ).avg_price(symbol) * quantity_of(orders, symbol) == outlay_of(orders, symbol),
    decreases orders.len(),
{
    let s = EngineState::fresh(capital, rate);
    if orders.len() > 0 {
        let init = orders.drop_last();
        let o = orders.last();
        assert forall|i: int| 0 <= i < init.len() implies (#[trigger] init[i]).valid()
            && init[i].trade_type == TradeType::Buy by {
            assert(init[i] == orders[i]);
        }
        assert(o == orders[orders.len() - 1]);
        law_average_price_is_weighted_mean(capital, rate, init, symbol);
        lemma_run_valid(s, init);
        let before = s.run(init);
        let end = s.run(orders);
        assert(end == before.settle(o));
        if o.symbol == symbol {
            let a = before.avg_price(symbol);
            let x = before.held(symbol);
            let p = o.price;
            let q = o.quantity;
            let b = end.avg_price(symbol);
            let n = fills_of(init, symbol);
            let c = outlay_of(init, symbol);
            assert(end.held(symbol) == x + q);
            assert(b == (a * x + p * q) / (x + q));
            if n == 0 {
                assert(a * x == 0) by (nonlinear_arith)
                    requires
                        x == 0,
                ;
                assert((p * q) / q == p) by (nonlinear_arith)
                    requires
                        q > 0,
                ;
                lemma_no_fills(init, symbol);
            } else {
                assert(b * (x + q) <= a * x + p * q && a * x + p * q - b * (x + q) < x + q)
                    by (nonlinear_arith)
                    requires
                        b == (a * x + p * q) / (x + q),
                        x + q > 0,
                ;
                assert((n - 1) * x + (x + q) <= n * (x + q)) by (nonlinear_arith)
                    requires
                        n >= 1,
                        x >= 0,
                        q >= 0,
                ;
            }
        } else {
            assert(end.positions == before.positions.insert(o.symbol, end.positions[o.symbol]));
        }
    } else {
        assert(s.run(orders) == s);
    }
}

/// An accepted order moves the cash by its notional, down for a buy and up
/// for a sell, less its commission; the commission is the rate times the
/// notional and never negative, and the order is logged once, with it.
pub proof fn law_commission_is_paid_once(s: EngineState, o: OrderView)
    requires
        s.valid(),
        o.valid(),
        s.verdict(o) is None,
    ensures
        s.step(o).trades == s.trades.push(s.fill(o)),
        s.fill(o).commission == commission_on(o.price, o.quantity, s.commission_rate),
        s.fill(o).commission >= 0,
        o.trade_type == TradeType::Buy ==> s.step(o).current_capital == s.current_capital
            - notional(o.price, o.quantity) - s.fill(o).commission,
        o.trade_type == TradeType::Sell ==> s.step(o).current_capital == s.current_capital
            + notional(o.price, o.quantity) - s.fill(o).commission,
{
    lemma_settle_valid(s, o);
}

/// The cash of consistent books is the starting capital plus the notional
/// that the log moved, less the commission of every logged trade.
pub proof fn law_cash_accounts_for_every_trade(s: EngineState)
    requires
        s.valid(),
    ensures
        s.current_capital == s.starting_capital + net_notional(s.trades, s.trades.len() as int)
            - commissions(s.trades, s.trades.len() as int),
{
    lemma_balance_splits(s.starting_capital as int, s.trades, s.trades.len() as int);
}

/// A balance is the start plus the notional moved less the commissions.
pub proof fn lemma_balance_splits(start: int, trades: Seq<TradeView>, k: int)
    requires
        0 <= k <= trades.len(),
    ensures
        balance_after(start, trades, k) == start + net_notional(trades, k) - commissions(
            trades,
            k,
        ),
    decreases k,
{
    if k > 0 {
        lemma_balance_splits(start, trades, k - 1);
    }
}

/// A sell of a symbol that is not held is turned down, and the books stay
/// as they were.
pub proof fn law_sell_without_position_is_rejected(s: EngineState, o: OrderView)
    requires
        o.trade_type == TradeType::Sell,
        !s.holds(o.symbol),
    ensures
        s.verdict(o) is Some,
        o.status == OrderStatus::Pending ==> s.verdict(o) == Some(Rejection::NoPosition),
        s.step(o) == s,
{
}

/// A sell of more than is held is turned down, and the books stay as they
/// were: nothing is filled in part.
pub proof fn law_oversell_is_rejected(s: EngineState, o: OrderView)
    requires
        o.trade_type == TradeType::Sell,
        s.held(o.symbol) < o.quantity,
    ensures
        s.verdict(o) is Some,
        o.status == OrderStatus::Pending && s.holds(o.symbol) ==> s.verdict(o) == Some(
            Rejection::InsufficientPosition,
        ),
        s.step(o) == s,
{
}

/// An order is filled whole or not at all: an accepted order is logged with
/// its own quantity and changes the holding by exactly that much, and an
/// order that is turned down changes nothing.
pub proof fn law_no_partial_fills(s: EngineState, o: OrderView)
    requires
        s.valid(),
        o.valid(),
    ensures
        s.verdict(o) is Some ==> s.step(o) == s,
        s.verdict(o) is None ==> s.fill(o).quantity == o.quantity,
        s.verdict(o) is None && o.trade_type == TradeType::Sell ==> s.step(o).held(o.symbol)
            == s.held(o.symbol) - o.quantity,
        s.verdict(o) is None && o.trade_type == TradeType::Buy ==> s.step(o).held(o.symbol)
            == s.held(o.symbol) + o.quantity,
{
}

/// Without a sell in the log, the win rate is zero.
pub proof fn law_win_rate_zero_without_sells(s: EngineState)
    requires
        s.sells() == 0,
    ensures
        s.summary().win_rate == 0,
        s.summary().winning_trades == 0,
        s.summary().losing_trades == 0,
{
    lemma_wins_within_sells(s.trades, s.trades.len() as int);
}

/// No more sells win than there are sells.
pub proof fn lemma_wins_within_sells(trades: Seq<TradeView>, k: int)
    ensures
        wins_upto(trades, k) <= sells_upto(trades, k),
    decreases k,
{
    if k > 0 {
        lemma_wins_within_sells(trades, k - 1);
    }
}

/// The win rate is a percentage of the sells: at most one hundred.
pub proof fn law_win_rate_is_a_percentage(s: EngineState)
    ensures
        s.summary().win_rate <= 100 * SCALE,
{
    lemma_wins_within_sells(s.trades, s.trades.len() as int);
    let wins = s.wins();
    let sells = s.sells();
    if sells > 0 {
        assert((wins * 100 * SCALE) / (sells as int) <= 100 * SCALE) by (nonlinear_arith)
            requires
                0 <= wins <= sells,
                sells > 0,
                SCALE == 1_000_000,
        ;
    }
}

/// A summary is fixed by what it says: two results with the same view are
/// the same result.
pub proof fn lemma_summary_fixes_result(a: BacktestResult, b: BacktestResult)
    requires
        a@ == b@,
    ensures
        a == b,
{
    match (a.sharpe_ratio, b.sharpe_ratio) {
        (Some(x), Some(y)) => {
            assert(a@.sharpe_ratio == Some(x as int));
            assert(b@.sharpe_ratio == Some(y as int));
        },
        (Some(x), None) => {
            assert(a@.sharpe_ratio == Some(x as int));
            assert(b@.sharpe_ratio == None::<int>);
        },
        (None, Some(y)) => {
            assert(a@.sharpe_ratio == None::<int>);
            assert(b@.sharpe_ratio == Some(y as int));
        },
        (None, None) => {},
    }
}

/// The same orders, handed to fresh books with the same capital and rate,
/// give the same result: any two results that summarise such runs are
/// equal.
pub proof fn law_replay_reproduces_result(
    capital: nat,
    rate: nat,
    orders: Seq<OrderView>,
    first: BacktestResult,
    second: BacktestResult,
)
    requires
        first@ == EngineState::fresh(capital, rate).run(orders).summary(),
        second@ == EngineState::fresh(capital, rate).run(orders).summary(),
    ensures
        first == second,
{
    lemma_summary_fixes_result(first, second);
}

/// The crossover rule leaves the books alone, and does not count itself
/// invested, until it has passed `long_period` bars.
pub proof fn law_crossover_waits_for_the_long_window(
    books: EngineState,
    bars: Seq<Bar>,
    short_period: int,
    long_period: int,
    k: int,
)
    requires
        k <= long_period,
    ensures
        sma_cross_run(books, bars, short_period, long_period, k) == (CrossState {
            books,
            in_position: false,
        }),
    decreases k,
{
    if k > 0 {
        law_crossover_waits_for_the_long_window(books, bars, short_period, long_period, k - 1);
    }
}

/// The momentum rule leaves the books alone until it has passed `period`
/// bars.
pub proof fn law_momentum_waits_for_its_period(
    books: EngineState,
    bars: Seq<Bar>,
    period: int,
    threshold: int,
    k: int,
)
    requires
        k <= period,
    ensures
        momentum_run(books, bars, period, threshold, k) == books,
    decreases k,
{
    if k > 0 {
        law_momentum_waits_for_its_period(books, bars, period, threshold, k - 1);
    }
}

} // verus!
