//! Moving averages over a price series.
use vstd::prelude::*;
use crate::types::Bar;

verus! {

/// The sum of `prices[from..to]`.
pub open spec fn window_sum(prices: Seq<u64>, from: int, to: int) -> int
    decreases to - from,
{
    if to <= from {
        0
    } else {
        window_sum(prices, from, to - 1) + prices[to - 1]
    }
}

/// Where the window of `period` prices that ends at index `i` begins; the
/// start of the series where fewer have been seen.
pub open spec fn window_start(i: int, period: int) -> int {
    if i + 1 >= period {
        i + 1 - period
    } else {
        0
    }
}

/// The simple moving average at index `i`: the mean of the last `period`
/// prices up to `i`, or of all prices up to `i` where fewer have been seen,
/// rounded down.
pub open spec fn sma_at(prices: Seq<u64>, i: int, period: int) -> int {
    window_sum(prices, window_start(i, period), i + 1) / (i + 1 - window_start(i, period))
}

/// The mean of the `period` prices that end at index `i`, rounded down, or
/// `None` where fewer have been seen or the period is zero.
pub open spec fn trailing_average(prices: Seq<u64>, i: int, period: int) -> Option<int> {
    if period >= 1 && i + 1 >= period {
        Some(window_sum(prices, i + 1 - period, i + 1) / period)
    } else {
        None
    }
}

/// One step of the exponential moving average: the last average moved
/// toward the new price by `2 / (period + 1)` of their distance, the move
/// rounded down.
pub open spec fn ema_step(last: int, price: int, period: int) -> int {
    if price >= last {
        last + ((price - last) * 2) / (period + 1)
    } else {
        last - ((last - price) * 2) / (period + 1)
    }
}

/// The exponential moving average at index `i`. It starts from the first
/// price.
pub open spec fn ema_at(prices: Seq<u64>, i: int, period: int) -> int
    decreases i,
{
    if i <= 0 {
        prices[0] as int
    } else {
        ema_step(ema_at(prices, i - 1, period), prices[i] as int, period)
    }
}

/// The closing prices of a run of bars.
pub open spec fn closes(bars: Seq<Bar>) -> Seq<u64> {
    bars.map_values(|b: Bar| b.close)
}

/// A window that loses its first price loses that much of its sum.
pub proof fn lemma_window_slide(prices: Seq<u64>, from: int, to: int)
    requires
        from < to,
    ensures
        window_sum(prices, from + 1, to) == window_sum(prices, from, to) - prices[from],
    decreases to - from,
{
    if to - 1 > from {
        lemma_window_slide(prices, from, to - 1);
    } else {
        assert(window_sum(prices, from, to - 1) == 0);
        assert(window_sum(prices, from + 1, to) == 0);
    }
}

/// A window sums to at most its length times the largest 64-bit value.
pub proof fn lemma_window_bounded(prices: Seq<u64>, from: int, to: int)
    requires
        0 <= from <= to <= prices.len(),
    ensures
        0 <= window_sum(prices, from, to) <= (to - from) * u64::MAX,
    decreases to - from,
{
    if to > from {
        lemma_window_bounded(prices, from, to - 1);
    }
}

/// The mean of a sum over `count` 64-bit values fits in 64 bits.
pub proof fn lemma_mean_fits(sum: int, count: int)
    requires
        0 < count,
        0 <= sum <= count * u64::MAX,
    ensures
        0 <= sum / count <= u64::MAX,
{
    assert(0 <= sum / count <= 0xffff_ffff_ffff_ffff) by (nonlinear_arith)
        requires
            0 < count,
            0 <= sum <= count * 0xffff_ffff_ffff_ffff,
    ;
}

/// Computes the simple moving average of a series. The result has one
/// average per price; it is empty for a period of zero.
pub fn sma(prices: Vec<u64>, period: usize) -> (r: Vec<u64>)
    ensures
        period == 0 ==> r@.len() == 0,
        period > 0 ==> r@.len() == prices@.len(),
        forall|i: int| 0 <= i < r@.len() ==> r@[i] == sma_at(prices@, i, period as int),
{
    let mut result: Vec<u64> = Vec::new();
    if period == 0 {
        return result;
    }
    let n = prices.len();
    let mut sum: u128 = 0;
    let mut i: usize = 0;
    while i < n
        invariant
            i <= n,
            n == prices@.len(),
            period > 0,
            result@.len() == i,
            sum == window_sum(prices@, window_start(i as int - 1, period as int), i as int),
            forall|j: int| 0 <= j < i ==> result@[j] == sma_at(prices@, j, period as int),
        decreases n - i,
    {
        let ghost old_start = window_start(i as int - 1, period as int);
        let ghost start = window_start(i as int, period as int);
        proof {
            lemma_window_bounded(prices@, old_start, i as int);
            lemma_window_bounded(prices@, old_start, i as int + 1);
            lemma_window_bounded(prices@, start, i as int + 1);
            assert((i + 1 - old_start) * u64::MAX <= 0x1_0000_0000_0000_0000 * u64::MAX)
                by (nonlinear_arith)
                requires
                    0 <= i + 1 - old_start <= 0x1_0000_0000_0000_0000,
            ;
        }
        sum = sum + (prices[i] as u128);
        if i >= period {
            proof {
                lemma_window_slide(prices@, old_start, i as int + 1);
            }
            sum = sum - (prices[i - period] as u128);
        }
        let count: u128 = if i >= period - 1 {
            period as u128
        } else {
            (i as u128) + 1
        };
        proof {
            lemma_mean_fits(sum as int, count as int);
        }
        result.push((sum / count) as u64);
        i += 1;
    }
    result
}

/// Moves `last` toward `price` by `2 / (period + 1)` of their distance.
pub fn ema_next(last: u64, price: u64, period: usize) -> (r: u64)
    requires
        period > 0,
    ensures
        r == ema_step(last as int, price as int, period as int),
{
    let span: u128 = (period as u128) + 1;
    if price >= last {
        let gap: u128 = (price - last) as u128;
        assert((gap * 2) / (span as int) <= gap) by (nonlinear_arith)
            requires
                span >= 2,
                gap >= 0,
        ;
        last + (((gap * 2) / span) as u64)
    } else {
        let gap: u128 = (last - price) as u128;
        assert((gap * 2) / (span as int) <= gap) by (nonlinear_arith)
            requires
                span >= 2,
                gap >= 0,
        ;
        last - (((gap * 2) / span) as u64)
    }
}

/// Computes the exponential moving average of a series. The result has one
/// average per price, the first equal to the first price; it is empty for a
/// period of zero.
pub fn ema(prices: Vec<u64>, period: usize) -> (r: Vec<u64>)
    ensures
        period == 0 ==> r@.len() == 0,
        period > 0 ==> r@.len() == prices@.len(),
        forall|i: int| 0 <= i < r@.len() ==> r@[i] == ema_at(prices@, i, period as int),
{
    let mut result: Vec<u64> = Vec::new();
    let n = prices.len();
    if period == 0 || n == 0 {
        return result;
    }
    let mut last: u64 = prices[0];
    result.push(last);
    let mut i: usize = 1;
    while i < n
        invariant
            1 <= i <= n,
            n == prices@.len(),
            period > 0,
            result@.len() == i,
            last == ema_at(prices@, i as int - 1, period as int),
            forall|j: int| 0 <= j < i ==> result@[j] == ema_at(prices@, j, period as int),
        decreases n - i,
    {
        last = ema_next(last, prices[i], period);
        result.push(last);
        i += 1;
    }
    result
}

/// Computes, bar by bar, the mean of the last `period` closing prices, or
/// `None` where fewer bars have been seen or the period is zero.
pub fn calculate_sma(bars: &Vec<Bar>, period: usize) -> (r: Vec<Option<u64>>)
    ensures
        r@.len() == bars@.len(),
        forall|i: int|
            0 <= i < r@.len() ==> match #[trigger] r@[i] {
                Some(a) => trailing_average(closes(bars@), i, period as int) == Some(a as int),
                None => trailing_average(closes(bars@), i, period as int) is None,
            },
{
    let mut result: Vec<Option<u64>> = Vec::new();
    let n = bars.len();
    let ghost prices = closes(bars@);
    let mut sum: u128 = 0;
    let mut i: usize = 0;
    while i < n
        invariant
            i <= n,
            n == bars@.len(),
            prices == closes(bars@),
            result@.len() == i,
            period > 0 ==> sum == window_sum(
                prices,
                window_start(i as int - 1, period as int),
                i as int,
            ),
            forall|j: int|
                0 <= j < i ==> match #[trigger] result@[j] {
                    Some(a) => trailing_average(prices, j, period as int) == Some(a as int),
                    None => trailing_average(prices, j, period as int) is None,
                },
        decreases n - i,
    {
        if period == 0 {
            result.push(None);
        } else {
            let ghost old_start = window_start(i as int - 1, period as int);
            let ghost start = window_start(i as int, period as int);
            proof {
                lemma_window_bounded(prices, old_start, i as int);
                lemma_window_bounded(prices, old_start, i as int + 1);
                lemma_window_bounded(prices, start, i as int + 1);
                assert((i + 1 - old_start) * u64::MAX <= 0x1_0000_0000_0000_0000 * u64::MAX)
                    by (nonlinear_arith)
                    requires
                        0 <= i + 1 - old_start <= 0x1_0000_0000_0000_0000,
                ;
                assert(prices[i as int] == bars@[i as int].close);
            }
            sum = sum + (bars[i].close as u128);
            if i >= period {
                proof {
                    lemma_window_slide(prices, old_start, i as int + 1);
                    assert(prices[i - period] == bars@[i - period].close);
                }
                sum = sum - (bars[i - period].close as u128);
            }
            if i >= period - 1 {
                proof {
                    lemma_mean_fits(sum as int, period as int);
                }
                result.push(Some((sum / (period as u128)) as u64));
            } else {
                result.push(None);
            }
        }
        i += 1;
    }
    result
}

} // verus!
