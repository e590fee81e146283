//! What a finished run amounts to: return, drawdown, win rate and a
//! Sharpe-like ratio, each read off the books and the trade log.
use vstd::prelude::*;
use crate::engine::BacktestEngine;
use crate::fixed::{
    div_toward_zero, is_sqrt_of, isqrt, lemma_product_fits, lemma_sqrt_unique, mul_scaled, SCALE,
};
use crate::ledger::{balance_after, cash_effect, lemma_commission_bounded, EngineState};
use crate::types::{trade_views, Trade, TradeType, TradeView};

verus! {

/// The summary of a run. Percentages, ratio and capital are fixed-point.
#[derive(Debug, Clone, Copy, PartialEq, Eq, Structural)]
pub struct BacktestResult {
    /// The number of logged trades.
    pub total_trades: usize,
    /// The number of sells that closed with a profit.
    pub winning_trades: usize,
    /// The number of sells that did not.
    pub losing_trades: usize,
    /// The change of the cash over the run, in percent of the starting
    /// capital.
    pub total_return: i128,
    /// The deepest fall of the cash below its running peak, in percent of
    /// that peak.
    pub max_drawdown: u64,
    /// The mean of the round-trip returns over their standard deviation, or
    /// `None` where the profits are too large to work with.
    pub sharpe_ratio: Option<i128>,
    /// The winning sells in percent of all sells.
    pub win_rate: u64,
    /// The cash at the end of the run.
    pub final_capital: u64,
}

/// A summary as plain mathematical values.
pub struct Summary {
    pub total_trades: nat,
    pub winning_trades: nat,
    pub losing_trades: nat,
    pub total_return: int,
    pub max_drawdown: nat,
    pub sharpe_ratio: Option<int>,
    pub win_rate: nat,
    pub final_capital: nat,
}

impl View for BacktestResult {
    type V = Summary;

    open spec fn view(&self) -> Summary {
        Summary {
            total_trades: self.total_trades as nat,
            winning_trades: self.winning_trades as nat,
            losing_trades: self.losing_trades as nat,
            total_return: self.total_return as int,
            max_drawdown: self.max_drawdown as nat,
            sharpe_ratio: match self.sharpe_ratio {
                Some(r) => Some(r as int),
                None => None,
            },
            win_rate: self.win_rate as nat,
            final_capital: self.final_capital as nat,
        }
    }
}

/// The change from `start` to `end`, in percent of `start`, rounded toward
/// zero.
pub open spec fn return_pct(start: nat, end: nat) -> int {
    div_toward_zero((end - start) * 100 * SCALE, start as int)
}

/// The highest cash seen over the first `k` trades of a log, the starting
/// capital included.
pub open spec fn peak_after(start: int, trades: Seq<TradeView>, k: int) -> int
    decreases k,
{
    if k <= 0 {
        start
    } else {
        let before = peak_after(start, trades, k - 1);
        let now = balance_after(start, trades, k);
        if now > before {
            now
        } else {
            before
        }
    }
}

/// How far the cash stands below its running peak after `k` trades, in
/// percent of that peak, rounded down.
pub open spec fn drawdown_at(start: int, trades: Seq<TradeView>, k: int) -> int {
    (peak_after(start, trades, k) - balance_after(start, trades, k)) * 100 * SCALE / peak_after(
        start,
        trades,
        k,
    )
}

/// The deepest drawdown seen over the first `k` trades of a log.
pub open spec fn max_drawdown_upto(start: int, trades: Seq<TradeView>, k: int) -> int
    decreases k,
{
    if k <= 0 {
        0
    } else {
        let before = max_drawdown_upto(start, trades, k - 1);
        let now = drawdown_at(start, trades, k);
        if now > before {
            now
        } else {
            before
        }
    }
}

/// Whether `buy` can be the entry that `sell` closes: a buy of the same
/// symbol, stamped earlier.
pub open spec fn is_entry_for(buy: TradeView, sell: TradeView) -> bool {
    &&& buy.trade_type == TradeType::Buy
    &&& buy.symbol == sell.symbol
    &&& buy.timestamp < sell.timestamp
}

/// The first trade of the log, from index `from` on, that can be the entry
/// of `sell`.
pub open spec fn first_entry(trades: Seq<TradeView>, sell: TradeView, from: int) -> Option<int>
    decreases trades.len() - from,
{
    if from < 0 || from >= trades.len() {
        None
    } else if is_entry_for(trades[from], sell) {
        Some(from)
    } else {
        first_entry(trades, sell, from + 1)
    }
}

/// The profit of selling at `sell` what was bought at `buy`: the price
/// difference times the quantity sold, less both commissions.
pub open spec fn pair_pnl(buy: TradeView, sell: TradeView) -> int {
    div_toward_zero((sell.price - buy.price) * sell.quantity, SCALE as int) - sell.commission
        - buy.commission
}

/// Whether trade `j` of the log is a sell that closed with a profit against
/// its first entry.
pub open spec fn is_win(trades: Seq<TradeView>, j: int) -> bool {
    &&& trades[j].trade_type == TradeType::Sell
    &&& first_entry(trades, trades[j], 0) matches Some(i)
    &&& pair_pnl(trades[i], trades[j]) > 0
}

/// The number of sells among the first `k` trades.
pub open spec fn sells_upto(trades: Seq<TradeView>, k: int) -> nat
    decreases k,
{
    if k <= 0 {
        0
    } else if trades[k - 1].trade_type == TradeType::Sell {
        sells_upto(trades, k - 1) + 1
    } else {
        sells_upto(trades, k - 1)
    }
}

/// The number of winning sells among the first `k` trades.
pub open spec fn wins_upto(trades: Seq<TradeView>, k: int) -> nat
    decreases k,
{
    if k <= 0 {
        0
    } else if is_win(trades, k - 1) {
        wins_upto(trades, k - 1) + 1
    } else {
        wins_upto(trades, k - 1)
    }
}

/// `wins` in percent of `sells`, rounded down; zero when nothing was sold.
pub open spec fn win_rate_pct(wins: nat, sells: nat) -> nat {
    if sells == 0 {
        0
    } else {
        ((wins * 100 * SCALE) / (sells as int)) as nat
    }
}

/// The profits of the round trips among the first `k` adjacent pairs of the
/// log. The log is read two trades at a time; a pair counts when it is a buy
/// followed by a sell.
pub open spec fn round_trip_profits(trades: Seq<TradeView>, k: int) -> Seq<int>
    decreases k,
{
    if k <= 0 {
        Seq::empty()
    } else {
        let before = round_trip_profits(trades, k - 1);
        let buy = trades[2 * k - 2];
        let sell = trades[2 * k - 1];
        if buy.trade_type == TradeType::Buy && sell.trade_type == TradeType::Sell {
            before.push(pair_pnl(buy, sell))
        } else {
            before
        }
    }
}

/// The sum of a sequence.
pub open spec fn sum_of(rs: Seq<int>) -> int
    decreases rs.len(),
{
    if rs.len() == 0 {
        0
    } else {
        sum_of(rs.drop_last()) + rs.last()
    }
}

/// The sum of the squares of a sequence.
pub open spec fn sum_of_squares(rs: Seq<int>) -> int
    decreases rs.len(),
{
    if rs.len() == 0 {
        0
    } else {
        sum_of_squares(rs.drop_last()) + rs.last() * rs.last()
    }
}

/// Every term is at most `i64::MAX` in size.
pub open spec fn all_fit(rs: Seq<int>) -> bool {
    forall|i: int| 0 <= i < rs.len() ==> -i64::MAX <= #[trigger] rs[i] <= i64::MAX
}

/// The integer square root of `x`.
pub open spec fn sqrt_floor(x: nat) -> nat {
    choose|s: nat| is_sqrt_of(s, x)
}

/// The sum of the squares of `n * r - t` over the terms `r` of a sequence:
/// for `n` terms of sum `t`, the squared deviations from the mean, `n * n`
/// times over.
pub open spec fn squared_deviations(rs: Seq<int>, n: int, t: int) -> int
    decreases rs.len(),
{
    if rs.len() == 0 {
        0
    } else {
        squared_deviations(rs.drop_last(), n, t) + (n * rs.last() - t) * (n * rs.last() - t)
    }
}

/// The mean of `rs` over its population standard deviation, rounded toward
/// zero. With `n` terms of sum `t` and sum of squares `q`, the mean is
/// `t / n` and the variance `(n * q - t * t) / (n * n)`, so the ratio is
/// `t / sqrt(n * q - t * t)`. It is zero for fewer than two terms and where
/// the terms do not vary, and `None` where a term exceeds `i64::MAX` in size
/// or `n * q` does not fit in 128 bits.
///
/// Dividing every term by the same positive number leaves the ratio as it
/// is: the ratio of the round-trip returns, which are the profits over the
/// starting capital, is the ratio of the profits.
pub open spec fn sharpe_of(rs: Seq<int>) -> Option<int> {
    let n = rs.len() as int;
    let t = sum_of(rs);
    let q = sum_of_squares(rs);
    if n < 2 {
        Some(0)
    } else if !all_fit(rs) || n * q > u128::MAX {
        None
    } else if n * q - t * t <= 0 {
        Some(0)
    } else {
        Some(div_toward_zero(t * SCALE, sqrt_floor((n * q - t * t) as nat) as int))
    }
}

impl EngineState {
    /// The deepest drawdown of the run.
    pub open spec fn max_drawdown(self) -> int {
        max_drawdown_upto(self.starting_capital as int, self.trades, self.trades.len() as int)
    }

    /// The number of sells in the log.
    pub open spec fn sells(self) -> nat {
        sells_upto(self.trades, self.trades.len() as int)
    }

    /// The number of winning sells in the log.
    pub open spec fn wins(self) -> nat {
        wins_upto(self.trades, self.trades.len() as int)
    }

    /// The profits of the round trips of the log.
    pub open spec fn round_trips(self) -> Seq<int> {
        round_trip_profits(self.trades, (self.trades.len() / 2) as int)
    }

    /// The summary of the run.
    pub open spec fn summary(self) -> Summary {
        Summary {
            total_trades: self.trades.len(),
            winning_trades: self.wins(),
            losing_trades: (self.sells() - self.wins()) as nat,
            total_return: return_pct(self.starting_capital, self.current_capital),
            max_drawdown: self.max_drawdown() as nat,
            sharpe_ratio: sharpe_of(self.round_trips()),
            win_rate: win_rate_pct(self.wins(), self.sells()),
            final_capital: self.current_capital,
        }
    }
}

/// A drawdown is a percentage: it never exceeds one hundred.
pub proof fn lemma_drawdown_bounded(fall: int, peak: int)
    requires
        0 <= fall <= peak,
        0 < peak,
    ensures
        0 <= fall * 100 * SCALE / peak <= 100 * SCALE,
{
    assert(0 <= (fall * 100_000_000) / peak <= 100_000_000) by (nonlinear_arith)
        requires
            0 <= fall <= peak,
            0 < peak,
    ;
    assert(fall * 100 * SCALE == fall * 100_000_000) by (nonlinear_arith)
        requires
            SCALE == 1_000_000,
    ;
}

impl BacktestEngine {
    /// Replays the trade log from the starting capital and reports the
    /// deepest fall of the cash below its running peak, in percent of that
    /// peak.
    pub fn calculate_max_drawdown(&self) -> (r: u64)
        requires
            self.wf(),
        ensures
            r == self@.max_drawdown(),
            r <= 100 * SCALE,
    {
        let trades = self.trades();
        let start = self.capital();
        let ghost s = self@;
        proof {
            self.lemma_wf();
        }
        let mut capital: u64 = start;
        let mut peak: u64 = start;
        let mut worst: u64 = 0;
        let mut k: usize = 0;
        while k < trades.len()
            invariant
                k <= trades@.len(),
                s.valid(),
                s.trades == trade_views(trades@),
                s.starting_capital == start,
                capital == balance_after(start as int, s.trades, k as int),
                peak == peak_after(start as int, s.trades, k as int),
                worst == max_drawdown_upto(start as int, s.trades, k as int),
                capital <= peak,
                0 < peak,
                worst <= 100 * SCALE,
            decreases trades@.len() - k,
        {
            let t = &trades[k];
            let ghost tv = s.trades[k as int];
            let notional: u128 = mul_scaled(t.price, t.quantity);
            proof {
                assert(tv == t@);
                lemma_commission_bounded(tv.price, tv.quantity, s.commission_rate);
                assert(balance_after(start as int, s.trades, k + 1) == capital + cash_effect(tv));
                assert(0 <= balance_after(start as int, s.trades, k + 1) <= u64::MAX);
            }
            match t.trade_type {
                TradeType::Buy => {
                    capital = capital - ((notional + t.commission as u128) as u64);
                },
                TradeType::Sell => {
                    capital = capital + ((notional - t.commission as u128) as u64);
                },
            }
            if capital > peak {
                peak = capital;
            }
            proof {
                lemma_drawdown_bounded(peak - capital, peak as int);
            }
            let fall: u128 = ((peak - capital) as u128) * 100_000_000;
            let drawdown: u64 = (fall / (peak as u128)) as u64;
            if drawdown > worst {
                worst = drawdown;
            }
            k += 1;
        }
        worst
    }
}

/// Computes the profit of one round trip.
pub fn round_trip_pnl(buy: &Trade, sell: &Trade) -> (r: i128)
    ensures
        r == pair_pnl(buy@, sell@),
        -0x4000_0000_0000_0000_0000_0000_0000 <= r <= 0x4000_0000_0000_0000_0000_0000_0000,
{
    let gross: i128 = if sell.price >= buy.price {
        let up: u64 = sell.price - buy.price;
        proof {
            lemma_product_fits(up, sell.quantity);
        }
        mul_scaled(up, sell.quantity) as i128
    } else {
        let down: u64 = buy.price - sell.price;
        proof {
            lemma_product_fits(down, sell.quantity);
            assert(-((sell.price - buy.price) * sell.quantity) == down * sell.quantity)
                by (nonlinear_arith)
                requires
                    down == buy.price - sell.price,
            ;
            assert((sell.price - buy.price) * sell.quantity <= 0) by (nonlinear_arith)
                requires
                    sell.price - buy.price < 0,
                    sell.quantity >= 0,
            ;
        }
        -(mul_scaled(down, sell.quantity) as i128)
    };
    gross - (sell.commission as i128) - (buy.commission as i128)
}

/// Finds the first trade of the log that can be the entry of `sell`.
pub fn find_entry(trades: &Vec<Trade>, sell: &Trade) -> (r: Option<usize>)
    ensures
        match r {
            Some(i) => first_entry(trade_views(trades@), sell@, 0) == Some(i as int) && i
                < trades@.len(),
            None => first_entry(trade_views(trades@), sell@, 0) is None,
        },
{
    let ghost ts = trade_views(trades@);
    let mut i: usize = 0;
    while i < trades.len()
        invariant
            i <= trades@.len(),
            ts == trade_views(trades@),
            first_entry(ts, sell@, 0) == first_entry(ts, sell@, i as int),
        decreases trades@.len() - i,
    {
        let t = &trades[i];
        assert(ts[i as int] == t@);
        if t.trade_type == TradeType::Buy && t.symbol == sell.symbol && t.timestamp
            < sell.timestamp {
            return Some(i);
        }
        i += 1;
    }
    None
}

/// Twice the sum of a sequence times any number is at most the sum of its
/// squares plus its length times that number's square.
pub proof fn lemma_cross_term(rs: Seq<int>, r: int)
    ensures
        2 * sum_of(rs) * r <= sum_of_squares(rs) + rs.len() * r * r,
    decreases rs.len(),
{
    if rs.len() > 0 {
        let init = rs.drop_last();
        let x = rs.last();
        lemma_cross_term(init, r);
        assert(2 * (sum_of(init) + x) * r <= sum_of_squares(init) + x * x + (init.len() + 1) * r
            * r) by (nonlinear_arith)
            requires
                2 * sum_of(init) * r <= sum_of_squares(init) + init.len() * r * r,
        ;
    } else {
        assert(2 * 0 * r <= 0 + 0 * r * r) by (nonlinear_arith);
    }
}

/// The square of a sum is at most the number of terms times the sum of
/// their squares, and no sum of squares is negative.
pub proof fn lemma_sum_squared_bounded(rs: Seq<int>)
    ensures
        sum_of(rs) * sum_of(rs) <= rs.len() * sum_of_squares(rs),
        0 <= sum_of_squares(rs),
    decreases rs.len(),
{
    if rs.len() > 0 {
        let init = rs.drop_last();
        let x = rs.last();
        lemma_sum_squared_bounded(init);
        lemma_cross_term(init, x);
        assert((sum_of(init) + x) * (sum_of(init) + x) <= (init.len() + 1) * (sum_of_squares(
            init,
        ) + x * x)) by (nonlinear_arith)
            requires
                sum_of(init) * sum_of(init) <= init.len() * sum_of_squares(init),
                2 * sum_of(init) * x <= sum_of_squares(init) + init.len() * x * x,
        ;
        assert(0 <= x * x) by (nonlinear_arith);
    } else {
        assert(0 * 0 <= 0 * 0) by (nonlinear_arith);
    }
}

/// What the squared deviations come to, term by term.
pub proof fn lemma_squared_deviations(rs: Seq<int>, n: int, t: int)
    ensures
        squared_deviations(rs, n, t) == n * n * sum_of_squares(rs) - 2 * n * t * sum_of(rs)
            + rs.len() * t * t,
    decreases rs.len(),
{
    if rs.len() > 0 {
        let init = rs.drop_last();
        let x = rs.last();
        lemma_squared_deviations(init, n, t);
        let a = sum_of_squares(init);
        let b = sum_of(init);
        let m = init.len() as int;
        let nn = n * n;
        let nt = n * t;
        let tt = t * t;
        let xx = x * x;
        assert((n * x - t) * (n * x - t) == nn * xx - 2 * (nt * x) + tt) by (nonlinear_arith)
            requires
                nn == n * n,
                nt == n * t,
                tt == t * t,
                xx == x * x,
        ;
        assert(nn * (a + xx) == nn * a + nn * xx) by (nonlinear_arith);
        assert(nt * (b + x) == nt * b + nt * x) by (nonlinear_arith);
        assert((m + 1) * tt == m * tt + tt) by (nonlinear_arith);
        assert(2 * n * t * b == 2 * (nt * b) && 2 * n * t * (b + x) == 2 * (nt * (b + x)))
            by (nonlinear_arith)
            requires
                nt == n * t,
        ;
        assert(m * t * t == m * tt && (m + 1) * t * t == (m + 1) * tt) by (nonlinear_arith)
            requires
                tt == t * t,
        ;
    } else {
        assert(n * n * 0 - 2 * n * t * 0 + 0 * t * t == 0) by (nonlinear_arith);
    }
}

/// The number under the root of the ratio is the variance of the returns,
/// `n * n` times over: `n` times it is the sum of the squares of
/// `n * r - t`, the deviations of the returns from their mean, each `n`
/// times over.
pub proof fn law_spread_is_the_variance(rs: Seq<int>)
    ensures
        rs.len() * (rs.len() * sum_of_squares(rs) - sum_of(rs) * sum_of(rs))
            == squared_deviations(rs, rs.len() as int, sum_of(rs)),
{
    let n = rs.len() as int;
    let t = sum_of(rs);
    let q = sum_of_squares(rs);
    lemma_squared_deviations(rs, n, t);
    let tt = t * t;
    assert(n * (n * q - tt) == n * n * q - n * tt) by (nonlinear_arith);
    assert(2 * n * t * t == 2 * (n * tt) && n * t * t == n * tt) by (nonlinear_arith)
        requires
            tt == t * t,
    ;
}

/// Counts the sells of a log and, among them, the winning ones.
pub fn count_wins(trades: &Vec<Trade>) -> (r: (usize, usize))
    ensures
        r.0 == wins_upto(trade_views(trades@), trades@.len() as int),
        r.1 == sells_upto(trade_views(trades@), trades@.len() as int),
        r.0 <= r.1 <= trades@.len(),
{
    let ghost ts = trade_views(trades@);
    let mut wins: usize = 0;
    let mut sells: usize = 0;
    let mut j: usize = 0;
    while j < trades.len()
        invariant
            j <= trades@.len(),
            ts == trade_views(trades@),
            wins == wins_upto(ts, j as int),
            sells == sells_upto(ts, j as int),
            wins <= sells <= j,
        decreases trades@.len() - j,
    {
        let sell = &trades[j];
        assert(ts[j as int] == sell@);
        if sell.trade_type == TradeType::Sell {
            sells += 1;
            match find_entry(trades, sell) {
                Some(i) => {
                    let buy = &trades[i];
                    assert(ts[i as int] == buy@);
                    if round_trip_pnl(buy, sell) > 0 {
                        wins += 1;
                    }
                },
                None => {},
            }
        }
        j += 1;
    }
    (wins, sells)
}

/// What one more term adds to the sum and to the sum of squares.
pub proof fn lemma_push_term(rs: Seq<int>, r: int)
    ensures
        sum_of(rs.push(r)) == sum_of(rs) + r,
        sum_of_squares(rs.push(r)) == sum_of_squares(rs) + r * r,
        all_fit(rs.push(r)) <==> all_fit(rs) && -i64::MAX <= r <= i64::MAX,
        r * r >= 0,
{
    let next = rs.push(r);
    assert(next.drop_last() =~= rs);
    assert(r * r >= 0) by (nonlinear_arith);
    if all_fit(next) {
        assert(next[rs.len() as int] == r);
        assert forall|i: int| 0 <= i < rs.len() implies -i64::MAX <= #[trigger] rs[i]
            <= i64::MAX by {
            assert(next[i] == rs[i]);
        }
    }
    if all_fit(rs) && -i64::MAX <= r <= i64::MAX {
        assert forall|i: int| 0 <= i < next.len() implies -i64::MAX <= #[trigger] next[i]
            <= i64::MAX by {
            if i < rs.len() {
                assert(next[i] == rs[i]);
            }
        }
    }
}

/// Computes the Sharpe-like ratio of a log: the mean of its round-trip
/// returns over their population standard deviation.
pub fn sharpe_ratio(trades: &Vec<Trade>) -> (r: Option<i128>)
    ensures
        match r {
            Some(x) => sharpe_of(
                round_trip_profits(trade_views(trades@), (trades@.len() / 2) as int),
            ) == Some(x as int),
            None => sharpe_of(
                round_trip_profits(trade_views(trades@), (trades@.len() / 2) as int),
            ) is None,
        },
{
    let ghost ts = trade_views(trades@);
    let len: usize = trades.len();
    let pairs: usize = len / 2;
    let mut n: usize = 0;
    let mut total: i128 = 0;
    let mut squares: u128 = 0;
    let mut exact: bool = true;
    let mut k: usize = 0;
    while k < pairs
        invariant
            k <= pairs,
            len == trades@.len(),
            pairs == len / 2,
            ts == trade_views(trades@),
            n == round_trip_profits(ts, k as int).len(),
            n <= k,
            exact ==> all_fit(round_trip_profits(ts, k as int)),
            exact ==> total == sum_of(round_trip_profits(ts, k as int)),
            exact ==> squares == sum_of_squares(round_trip_profits(ts, k as int)),
            -(n * 0x8000_0000_0000_0000) <= total <= n * 0x8000_0000_0000_0000,
            !exact ==> !all_fit(round_trip_profits(ts, k as int)) || sum_of_squares(
                round_trip_profits(ts, k as int),
            ) > u128::MAX,
        decreases pairs - k,
    {
        let buy = &trades[2 * k];
        let sell = &trades[2 * k + 1];
        let ghost rs = round_trip_profits(ts, k as int);
        assert(ts[2 * k] == buy@);
        assert(ts[2 * k + 1] == sell@);
        if buy.trade_type == TradeType::Buy && sell.trade_type == TradeType::Sell {
            let pnl = round_trip_pnl(buy, sell);
            proof {
                lemma_push_term(rs, pnl as int);
                assert(round_trip_profits(ts, k + 1) == rs.push(pnl as int));
            }
            n += 1;
            if exact {
                if pnl < -(i64::MAX as i128) || pnl > i64::MAX as i128 {
                    exact = false;
                } else {
                    total = total + pnl;
                    assert(pnl * pnl <= 0x7fff_ffff_ffff_ffff * 0x7fff_ffff_ffff_ffff)
                        by (nonlinear_arith)
                        requires
                            -0x7fff_ffff_ffff_ffff <= pnl <= 0x7fff_ffff_ffff_ffff,
                    ;
                    match squares.checked_add((pnl * pnl) as u128) {
                        Some(q) => {
                            squares = q;
                        },
                        None => {
                            exact = false;
                        },
                    }
                }
            }
        }
        k += 1;
    }
    let ghost rs = round_trip_profits(ts, pairs as int);
    proof {
        lemma_sum_squared_bounded(rs);
    }
    if n < 2 {
        return Some(0);
    }
    if !exact {
        proof {
            if all_fit(rs) {
                assert(n * sum_of_squares(rs) > u128::MAX) by (nonlinear_arith)
                    requires
                        n >= 2,
                        sum_of_squares(rs) > u128::MAX,
                ;
            }
        }
        return None;
    }
    let spread_base: u128 = match (n as u128).checked_mul(squares) {
        Some(v) => v,
        None => {
            return None;
        },
    };
    assert(-0x1_0000_0000_0000_0000 < total < 0x1_0000_0000_0000_0000) by (nonlinear_arith)
        requires
            total * total <= 0xffff_ffff_ffff_ffff_ffff_ffff_ffff_ffff,
    ;
    let size: u128 = if total >= 0 {
        total as u128
    } else {
        (-total) as u128
    };
    assert(size * size == total * total) by (nonlinear_arith)
        requires
            size == total || size == -total,
    ;
    let spread: u128 = spread_base - size * size;
    if spread == 0 {
        return Some(0);
    }
    let root = isqrt(spread);
    proof {
        assert(root >= 1) by (nonlinear_arith)
            requires
                (root + 1) * (root + 1) > spread,
                spread >= 1,
                root >= 0,
        ;
        lemma_sqrt_unique(root as nat, sqrt_floor(spread as nat), spread as nat);
    }
    let scaled: i128 = total * (SCALE as i128);
    Some(scaled / (root as i128))
}

/// Computes the change from `start` to `end` in percent of `start`.
pub fn total_return(start: u64, end: u64) -> (r: i128)
    requires
        start > 0,
    ensures
        r == return_pct(start as nat, end as nat),
{
    let change: i128 = (end as i128) - (start as i128);
    assert(change * 100 * SCALE == change * 100_000_000) by (nonlinear_arith)
        requires
            SCALE == 1_000_000,
    ;
    (change * 100_000_000) / (start as i128)
}

/// Computes `wins` in percent of `sells`.
pub fn win_rate(wins: usize, sells: usize) -> (r: u64)
    requires
        wins <= sells,
    ensures
        r == win_rate_pct(wins as nat, sells as nat),
        r <= 100 * SCALE,
{
    if sells == 0 {
        return 0;
    }
    assert(wins * 100 * SCALE == wins * 100_000_000) by (nonlinear_arith)
        requires
            SCALE == 1_000_000,
    ;
    assert(0 <= (wins * 100_000_000) / (sells as int) <= 100_000_000) by (nonlinear_arith)
        requires
            0 <= wins <= sells,
            0 < sells,
    ;
    (((wins as u128) * 100_000_000) / (sells as u128)) as u64
}

impl BacktestEngine {
    /// Summarises the run from the books and the trade log.
    pub fn calculate_result(&self) -> (r: BacktestResult)
        requires
            self.wf(),
        ensures
            r@ == self@.summary(),
    {
        proof {
            self.lemma_wf();
        }
        let trades = self.trades();
        let (wins, sells) = count_wins(trades);
        BacktestResult {
            total_trades: trades.len(),
            winning_trades: wins,
            losing_trades: sells - wins,
            total_return: total_return(self.capital(), self.current_capital()),
            max_drawdown: self.calculate_max_drawdown(),
            sharpe_ratio: sharpe_ratio(trades),
            win_rate: win_rate(wins, sells),
            final_capital: self.current_capital(),
        }
    }
}

} // verus!
