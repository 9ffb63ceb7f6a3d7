//! The windows of the normalized market prices: how far beyond the cheapest prices that are
//! always looked at the estimators look, which is up to the first price that jumps.

use crate::utils::series::{lemma_quantity_prefix, quantity_total};
use crate::utils::stats::{MAX_PRICE_DIFF_DENOMINATOR, MAX_PRICE_DIFF_NUMERATOR};
use vstd::prelude::*;

verus! {

/// Whether `price` is less than 1.2 times `previous`.
pub open spec fn within_jump(previous: u64, price: u64) -> bool {
    MAX_PRICE_DIFF_DENOMINATOR * price < MAX_PRICE_DIFF_NUMERATOR * previous
}

/// The last index of the window of `normalized_market_price`: starting at `from`, the window
/// grows up to `limit` for as long as each price is less than 1.2 times the one before it.
pub open spec fn window_end(sorted: Seq<u64>, from: int, limit: int) -> int
    decreases limit - from,
{
    if 0 <= from < limit && from + 1 < sorted.len() && within_jump(sorted[from], sorted[from + 1]) {
        window_end(sorted, from + 1, limit)
    } else {
        from
    }
}

/// `window_end` names the one index between `from` and `limit` up to which no price jumps, and
/// after which one does unless the limit is reached.
pub proof fn lemma_window_end(sorted: Seq<u64>, from: int, limit: int)
    requires
        0 <= from <= limit < sorted.len(),
    ensures
        from <= window_end(sorted, from, limit) <= limit,
        forall|i: int|
            from < i <= window_end(sorted, from, limit) ==> within_jump(
                sorted[i - 1],
                #[trigger] sorted[i],
            ),
        window_end(sorted, from, limit) < limit ==> !within_jump(
            sorted[window_end(sorted, from, limit)],
            sorted[window_end(sorted, from, limit) + 1],
        ),
    decreases limit - from,
{
    if from < limit && within_jump(sorted[from], sorted[from + 1]) {
        lemma_window_end(sorted, from + 1, limit);
    }
}

/// A window grows over prices of which none jumps.
pub proof fn lemma_window_run(sorted: Seq<u64>, from: int, to: int, limit: int)
    requires
        0 <= from <= to <= limit < sorted.len(),
        forall|k: int| from <= k < to ==> within_jump(#[trigger] sorted[k], sorted[k + 1]),
    ensures
        window_end(sorted, from, limit) == window_end(sorted, to, limit),
    decreases to - from,
{
    if from < to {
        assert(within_jump(sorted[from], sorted[from + 1]));
        lemma_window_run(sorted, from + 1, to, limit);
    }
}

/// The window of `normalized_market_price_with_qty` over a series that ascends by price, walked
/// from the pair at `next` with `taken` units already in it.
///
/// Pairs are taken whole, in order, until `ceiling` units are in; the pair that would go over
/// the ceiling is taken in part, with the units that are still missing. Once `floor` units are
/// in, a pair priced at 1.2 times the price of the pair before it, or more, ends the walk.
pub open spec fn weighted_window(
    series: Seq<(u64, u64)>,
    floor: int,
    ceiling: int,
    next: int,
    taken: int,
) -> Seq<(u64, u64)>
    decreases series.len() - next,
{
    if taken >= ceiling || next < 0 || next >= series.len() {
        series.take(next)
    } else if taken >= floor && next > 0 && !within_jump(series[next - 1].0, series[next].0) {
        series.take(next)
    } else if taken + series[next].1 <= ceiling {
        weighted_window(series, floor, ceiling, next + 1, taken + series[next].1)
    } else {
        series.take(next).push((series[next].0, (ceiling - taken) as u64))
    }
}

/// What the window holds: the prices of the leading pairs of the series, and between `floor` and
/// `ceiling` of its units.
pub proof fn lemma_weighted_window(
    series: Seq<(u64, u64)>,
    floor: int,
    ceiling: int,
    next: int,
    taken: int,
)
    requires
        0 <= next <= series.len(),
        taken == quantity_total(series.take(next)),
        0 <= floor <= ceiling <= quantity_total(series),
        taken < floor || next > 0,
    ensures
        ({
            let window = weighted_window(series, floor, ceiling, next, taken);
            &&& next <= window.len() <= series.len()
            &&& forall|i: int| 0 <= i < window.len() ==> (#[trigger] window[i]).0 == series[i].0
            &&& forall|i: int| 0 <= i < window.len() - 1 ==> (#[trigger] window[i]) == series[i]
            &&& forall|i: int| 0 <= i < window.len() ==> (#[trigger] window[i]).1 <= series[i].1
            &&& quantity_total(window) <= quantity_total(series)
            &&& taken <= ceiling ==> quantity_total(window) <= ceiling
            &&& floor <= quantity_total(window)
        }),
    decreases series.len() - next,
{
    let window = weighted_window(series, floor, ceiling, next, taken);
    lemma_quantity_prefix(series, next);
    if next >= series.len() {
        assert(series.take(next) =~= series);
    } else if taken >= ceiling {
    } else if taken >= floor && next > 0 && !within_jump(series[next - 1].0, series[next].0) {
    } else {
        assert(series.take(next + 1).drop_last() =~= series.take(next));
        lemma_quantity_prefix(series, next + 1);
        if taken + series[next].1 <= ceiling {
            lemma_weighted_window(series, floor, ceiling, next + 1, taken + series[next].1);
        } else {
            assert(window.drop_last() =~= series.take(next));
        }
    }
}

/// Walks the series and builds `weighted_window`.
pub(crate) fn take_window(series: &[(u64, u64)], floor: u64, ceiling: u64) -> (window: Vec<
    (u64, u64),
>)
    ensures
        window@ == weighted_window(series@, floor as int, ceiling as int, 0, 0),
{
    let mut window: Vec<(u64, u64)> = Vec::new();
    let mut taken: u64 = 0;
    let mut next: usize = 0;
    while taken < ceiling && next < series.len()
        invariant
            next <= series.len(),
            window@ == series@.take(next as int),
            weighted_window(series@, floor as int, ceiling as int, 0, 0) == weighted_window(
                series@,
                floor as int,
                ceiling as int,
                next as int,
                taken as int,
            ),
        decreases series.len() - next,
    {
        let price = series[next].0;
        let quantity = series[next].1;
        if taken >= floor && next > 0 && !(MAX_PRICE_DIFF_DENOMINATOR as u128 * (price as u128)
            < MAX_PRICE_DIFF_NUMERATOR as u128 * (series[next - 1].0 as u128)) {
            return window;
        }
        if quantity <= ceiling - taken {
            window.push((price, quantity));
            taken = taken + quantity;
            next = next + 1;
            assert(window@ =~= series@.take(next as int));
        } else {
            window.push((price, ceiling - taken));
            return window;
        }
    }
    window
}

} // verus!
