//! The relative strength index over a trailing window of prices.
//!
//! The index is the share of the gains in all movement over the last `period`
//! steps, on a scale from 0 to 100. This is what `100 - 100 / (1 + rs)` comes
//! to with `rs = avg_gain / avg_loss`, both averages being plain means over
//! the window: the period cancels, and `100 - 100 / (1 + g / l)` is
//! `100 * g / (g + l)`. Where nothing was lost the index is 100. The averages
//! are not smoothed from one window to the next.

use crate::history::{PriceSeries, MAX_HISTORY};
use vstd::arithmetic::div_mod::{
    lemma_div_is_ordered, lemma_div_multiples_vanish, lemma_div_pos_is_pos,
};
use vstd::prelude::*;

verus! {

/// The index value 100, in ticks: a hundred times `PRICE_SCALE`.
pub const RSI_FULL: u64 = 100_000_000_000_000;

/// What a step from `prev` to `next` gains: the rise, 0 for a step that does not rise.
pub open spec fn gain(prev: i64, next: i64) -> int {
    if next > prev {
        next - prev
    } else {
        0
    }
}

/// What a step from `prev` to `next` loses: the fall, 0 for a step that rises.
pub open spec fn loss(prev: i64, next: i64) -> int {
    if next > prev {
        0
    } else {
        prev - next
    }
}

/// The gains of all steps of a window.
pub open spec fn gain_sum(window: Seq<i64>) -> int
    decreases window.len(),
{
    if window.len() < 2 {
        0
    } else {
        gain_sum(window.drop_last()) + gain(window[window.len() - 2], window[window.len() - 1])
    }
}

/// The losses of all steps of a window.
pub open spec fn loss_sum(window: Seq<i64>) -> int
    decreases window.len(),
{
    if window.len() < 2 {
        0
    } else {
        loss_sum(window.drop_last()) + loss(window[window.len() - 2], window[window.len() - 1])
    }
}

/// The index for given sums of gains and losses, in ticks, cut off toward zero.
pub open spec fn rsi_of_sums(gains: int, losses: int) -> int {
    if losses == 0 {
        RSI_FULL as int
    } else {
        (RSI_FULL * gains) / (gains + losses)
    }
}

/// The last `period + 1` prices: the window that spans `period` steps.
pub open spec fn window(prices: Seq<i64>, period: nat) -> Seq<i64> {
    prices.subrange(prices.len() - period - 1, prices.len() as int)
}

/// The index over the last `period` steps, `None` while fewer than
/// `period + 1` prices are there.
pub open spec fn rsi(prices: Seq<i64>, period: nat) -> Option<int> {
    if prices.len() < period + 1 {
        None
    } else {
        Some(rsi_of_sums(gain_sum(window(prices, period)), loss_sum(window(prices, period))))
    }
}

/// Gains and losses are not negative, and a step adds less than `2^64` to them.
pub proof fn lemma_sums_bounded(window: Seq<i64>)
    ensures
        0 <= gain_sum(window),
        0 <= loss_sum(window),
        gain_sum(window) + loss_sum(window) <= window.len() * 0xffff_ffff_ffff_ffff,
    decreases window.len(),
{
    if window.len() >= 2 {
        lemma_sums_bounded(window.drop_last());
    }
}

/// The index lies between 0 and 100.
pub proof fn lemma_rsi_of_sums_in_range(gains: int, losses: int)
    requires
        0 <= gains,
        0 <= losses,
    ensures
        0 <= rsi_of_sums(gains, losses) <= RSI_FULL,
{
    if losses != 0 {
        let full = RSI_FULL as int;
        let all = gains + losses;
        assert(0 <= full * gains <= full * all) by (nonlinear_arith)
            requires
                0 <= gains <= all,
                full >= 0,
        ;
        lemma_div_pos_is_pos(full * gains, all);
        lemma_div_is_ordered(full * gains, full * all, all);
        assert(full * all == all * full) by (nonlinear_arith);
        lemma_div_multiples_vanish(full, all);
    }
}

/// The index is absent exactly while the history is shorter than `period + 1`.
pub proof fn lemma_rsi_absent_iff_short(prices: Seq<i64>, period: nat)
    ensures
        rsi(prices, period) is None <==> prices.len() < period + 1,
{
}

/// The index, where there is one, lies between 0 and 100.
pub proof fn lemma_rsi_in_range(prices: Seq<i64>, period: nat)
    ensures
        rsi(prices, period) matches Some(value) ==> 0 <= value <= RSI_FULL,
{
    if prices.len() >= period + 1 {
        lemma_sums_bounded(window(prices, period));
        lemma_rsi_of_sums_in_range(
            gain_sum(window(prices, period)),
            loss_sum(window(prices, period)),
        );
    }
}

/// A window whose prices never fall below the one before has lost nothing.
pub proof fn lemma_no_fall_no_loss(window: Seq<i64>)
    requires
        forall|i: int| 0 < i < window.len() ==> window[i - 1] < #[trigger] window[i],
    ensures
        loss_sum(window) == 0,
    decreases window.len(),
{
    if window.len() >= 2 {
        let shorter = window.drop_last();
        assert forall|i: int| 0 < i < shorter.len() implies shorter[i - 1]
            < #[trigger] shorter[i] by {
            assert(window[i - 1] < window[i]);
        }
        lemma_no_fall_no_loss(shorter);
        assert(window[window.len() - 2] < window[window.len() - 1]);
    }
}

/// A window whose prices are all the same has gained and lost nothing.
pub proof fn lemma_constant_window(window: Seq<i64>)
    requires
        forall|i: int| 0 < i < window.len() ==> window[i - 1] == #[trigger] window[i],
    ensures
        gain_sum(window) == 0,
        loss_sum(window) == 0,
    decreases window.len(),
{
    if window.len() >= 2 {
        let shorter = window.drop_last();
        assert forall|i: int| 0 < i < shorter.len() implies shorter[i - 1]
            == #[trigger] shorter[i] by {
            assert(window[i - 1] == window[i]);
        }
        lemma_constant_window(shorter);
        assert(window[window.len() - 2] == window[window.len() - 1]);
    }
}

/// A window whose prices fall at every step has gained nothing and, where
/// it has a step at all, lost something.
pub proof fn lemma_falling_window(window: Seq<i64>)
    requires
        forall|i: int| 0 < i < window.len() ==> window[i - 1] > #[trigger] window[i],
    ensures
        gain_sum(window) == 0,
        window.len() >= 2 ==> loss_sum(window) > 0,
    decreases window.len(),
{
    if window.len() >= 2 {
        let shorter = window.drop_last();
        assert forall|i: int| 0 < i < shorter.len() implies shorter[i - 1]
            > #[trigger] shorter[i] by {
            assert(window[i - 1] > window[i]);
        }
        lemma_falling_window(shorter);
        lemma_sums_bounded(shorter);
        assert(window[window.len() - 2] > window[window.len() - 1]);
    }
}

/// A history whose last `period + 1` prices are all the same has index 100.
pub proof fn lemma_constant_prices_give_full(prices: Seq<i64>, period: nat)
    requires
        period >= 1,
        prices.len() >= period + 1,
        forall|i: int|
            prices.len() - period <= i < prices.len() ==> prices[i - 1] == #[trigger] prices[i],
    ensures
        rsi(prices, period) == Some(RSI_FULL as int),
{
    let w = window(prices, period);
    assert forall|i: int| 0 < i < w.len() implies w[i - 1] == #[trigger] w[i] by {
        assert(prices[prices.len() - period - 1 + i - 1] == prices[prices.len() - period - 1 + i]);
    }
    lemma_constant_window(w);
}

/// A history whose last `period + 1` prices rise at every step has index 100.
pub proof fn lemma_rising_prices_give_full(prices: Seq<i64>, period: nat)
    requires
        period >= 1,
        prices.len() >= period + 1,
        forall|i: int|
            prices.len() - period <= i < prices.len() ==> prices[i - 1] < #[trigger] prices[i],
    ensures
        rsi(prices, period) == Some(RSI_FULL as int),
{
    let w = window(prices, period);
    assert forall|i: int| 0 < i < w.len() implies w[i - 1] < #[trigger] w[i] by {
        assert(prices[prices.len() - period - 1 + i - 1] < prices[prices.len() - period - 1 + i]);
    }
    lemma_no_fall_no_loss(w);
}

/// A history whose last `period + 1` prices fall at every step has index 0.
pub proof fn lemma_falling_prices_give_zero(prices: Seq<i64>, period: nat)
    requires
        period >= 1,
        prices.len() >= period + 1,
        forall|i: int|
            prices.len() - period <= i < prices.len() ==> prices[i - 1] > #[trigger] prices[i],
    ensures
        rsi(prices, period) == Some(0int),
{
    let w = window(prices, period);
    assert forall|i: int| 0 < i < w.len() implies w[i - 1] > #[trigger] w[i] by {
        assert(prices[prices.len() - period - 1 + i - 1] > prices[prices.len() - period - 1 + i]);
    }
    lemma_falling_window(w);
    assert(RSI_FULL * 0 == 0);
    assert(0int / loss_sum(w) == 0) by (nonlinear_arith)
        requires
            loss_sum(w) > 0,
    ;
}

/// Equal sums of gains and losses, not both zero, give index 50.
pub proof fn lemma_balanced_sums_give_half(gains: int, losses: int)
    requires
        gains == losses,
        losses > 0,
    ensures
        rsi_of_sums(gains, losses) == RSI_FULL / 2,
{
    let half = (RSI_FULL / 2) as int;
    let all = gains + losses;
    assert(RSI_FULL * gains == all * half) by (nonlinear_arith)
        requires
            all == 2 * gains,
            RSI_FULL == 2 * half,
    ;
    lemma_div_multiples_vanish(half, all);
}

/// Computes the index over the last `period` steps of a series.
///
/// `None` while the series holds fewer than `period + 1` prices.
pub fn compute_rsi_from_prices(prices: &PriceSeries, period: usize) -> (r: Option<u64>)
    requires
        period >= 1,
    ensures
        r is None <==> prices@.len() < period + 1,
        match r {
            Some(value) => rsi(prices@, period as nat) == Some(value as int) && value <= RSI_FULL,
            None => rsi(prices@, period as nat) is None,
        },
{
    let n = prices.len();
    if n <= period {
        return None;
    }
    let start = n - period - 1;
    let ghost w = window(prices@, period as nat);
    let mut gains: u128 = 0;
    let mut losses: u128 = 0;
    let mut i: usize = start + 1;
    while i < n
        invariant
            n == prices@.len(),
            n <= MAX_HISTORY,
            start + 1 <= i <= n,
            start == n - period - 1,
            w == prices@.subrange(start as int, n as int),
            gains == gain_sum(w.take(i - start)),
            losses == loss_sum(w.take(i - start)),
            gains + losses <= (i - start) * 0xffff_ffff_ffff_ffff,
        decreases n - i,
    {
        let prev = prices.get(i - 1);
        let next = prices.get(i);
        proof {
            let longer = w.take(i - start + 1);
            assert(longer.drop_last() =~= w.take(i - start));
            assert(longer[longer.len() - 2] == prev);
            assert(longer[longer.len() - 1] == next);
            lemma_sums_bounded(longer);
        }
        if next > prev {
            gains = gains + (next as i128 - prev as i128) as u128;
        } else {
            losses = losses + (prev as i128 - next as i128) as u128;
        }
        i += 1;
    }
    proof {
        assert(w.take(n - start) =~= w);
        lemma_sums_bounded(w);
        lemma_rsi_of_sums_in_range(gains as int, losses as int);
    }
    if losses == 0 {
        Some(RSI_FULL)
    } else {
        assert(RSI_FULL * gains <= 100_000_000_000_000 * (200 * 0xffff_ffff_ffff_ffff))
            by (nonlinear_arith)
            requires
                0 <= gains <= 200 * 0xffff_ffff_ffff_ffff,
                RSI_FULL == 100_000_000_000_000,
        ;
        Some(((RSI_FULL as u128 * gains) / (gains + losses)) as u64)
    }
}

} // verus!
