//! Trimming: dropping, at either end of ascending prices, those that lie more than one and a
//! half population standard deviations away from the mean.

use crate::utils::moments::{
    lemma_bands_ordered, lemma_some_within_bands, lemma_units_moments, Moments,
};
use crate::utils::series::{
    lemma_totals_remove, lemma_units_totals, lemma_units_within_limits, prices_of,
    prices_within_limits, quantity_total, series_within_limits, units, PRICE_LIMIT,
};
use crate::utils::sorting::{ascending, ascending_by_first};
use vstd::prelude::*;

verus! {

/// How many leading prices, counted from `from`, lie too far under the mean: the index of the
/// first price that does not.
pub open spec fn trim_start(prices: Seq<u64>, moments: Moments, from: int) -> int
    decreases prices.len() - from,
{
    if 0 <= from < prices.len() && moments.below(prices[from]) {
        trim_start(prices, moments, from + 1)
    } else {
        from
    }
}

/// The index of the first price, counted from `from`, that lies too far over the mean; the
/// length where there is none.
pub open spec fn trim_end(prices: Seq<u64>, moments: Moments, from: int) -> int
    decreases prices.len() - from,
{
    if 0 <= from < prices.len() && !moments.above(prices[from]) {
        trim_end(prices, moments, from + 1)
    } else {
        from
    }
}

/// The ascending prices without those at either end that lie more than one and a half population
/// standard deviations away from the mean.
pub open spec fn trimmed_prices(prices: Seq<u64>) -> Seq<u64> {
    let moments = Moments::of_prices(prices);
    let start = trim_start(prices, moments, 0);
    prices.subrange(start, trim_end(prices, moments, start))
}

/// The series, ascending by price, without the pairs at either end whose price lies more than
/// one and a half population standard deviations away from the mean price of its units.
pub open spec fn trimmed_series(series: Seq<(u64, u64)>) -> Seq<(u64, u64)> {
    let moments = Moments::of_series(series);
    let start = trim_start(prices_of(series), moments, 0);
    series.subrange(start, trim_end(prices_of(series), moments, start))
}

/// Finds `trim_start`.
pub(crate) fn find_trim_start(prices: &[u64], moments: &Moments) -> (start: usize)
    requires
        moments.bounded(),
        forall|i: int|
            0 <= i < prices.len() ==> moments.count * #[trigger] prices[i] <= PRICE_LIMIT,
    ensures
        start == trim_start(prices@, *moments, 0),
        start <= prices.len(),
{
    let mut i: usize = 0;
    while i < prices.len() && moments.is_below(prices[i])
        invariant
            i <= prices.len(),
            moments.bounded(),
            forall|k: int|
                0 <= k < prices.len() ==> moments.count * #[trigger] prices[k] <= PRICE_LIMIT,
            trim_start(prices@, *moments, 0) == trim_start(prices@, *moments, i as int),
        decreases prices.len() - i,
    {
        i = i + 1;
    }
    i
}

/// Finds `trim_end`.
pub(crate) fn find_trim_end(prices: &[u64], moments: &Moments, from: usize) -> (end: usize)
    requires
        from <= prices.len(),
        moments.bounded(),
        forall|i: int|
            0 <= i < prices.len() ==> moments.count * #[trigger] prices[i] <= PRICE_LIMIT,
    ensures
        end == trim_end(prices@, *moments, from as int),
        from <= end <= prices.len(),
{
    let mut i: usize = from;
    while i < prices.len() && !moments.is_above(prices[i])
        invariant
            from <= i <= prices.len(),
            moments.bounded(),
            forall|k: int|
                0 <= k < prices.len() ==> moments.count * #[trigger] prices[k] <= PRICE_LIMIT,
            trim_end(prices@, *moments, from as int) == trim_end(prices@, *moments, i as int),
        decreases prices.len() - i,
    {
        i = i + 1;
    }
    i
}

/// Finds `trim_start` among the prices of a series.
pub(crate) fn find_series_trim_start(series: &[(u64, u64)], moments: &Moments) -> (start: usize)
    requires
        moments.bounded(),
        forall|i: int|
            0 <= i < series.len() ==> moments.count * (#[trigger] series[i]).0 <= PRICE_LIMIT,
    ensures
        start == trim_start(prices_of(series@), *moments, 0),
        start <= series.len(),
{
    let mut i: usize = 0;
    while i < series.len() && moments.is_below(series[i].0)
        invariant
            i <= series.len(),
            moments.bounded(),
            forall|k: int|
                0 <= k < series.len() ==> moments.count * (#[trigger] series[k]).0 <= PRICE_LIMIT,
            trim_start(prices_of(series@), *moments, 0) == trim_start(
                prices_of(series@),
                *moments,
                i as int,
            ),
        decreases series.len() - i,
    {
        i = i + 1;
    }
    i
}

/// Finds `trim_end` among the prices of a series.
pub(crate) fn find_series_trim_end(series: &[(u64, u64)], moments: &Moments, from: usize) -> (end:
    usize)
    requires
        from <= series.len(),
        moments.bounded(),
        forall|i: int|
            0 <= i < series.len() ==> moments.count * (#[trigger] series[i]).0 <= PRICE_LIMIT,
    ensures
        end == trim_end(prices_of(series@), *moments, from as int),
        from <= end <= series.len(),
{
    let mut i: usize = from;
    while i < series.len() && !moments.is_above(series[i].0)
        invariant
            from <= i <= series.len(),
            moments.bounded(),
            forall|k: int|
                0 <= k < series.len() ==> moments.count * (#[trigger] series[k]).0 <= PRICE_LIMIT,
            trim_end(prices_of(series@), *moments, from as int) == trim_end(
                prices_of(series@),
                *moments,
                i as int,
            ),
        decreases series.len() - i,
    {
        i = i + 1;
    }
    i
}

/// Both ends of the trimmed range lie inside the list, in order.
pub proof fn lemma_trim_bounds(prices: Seq<u64>, moments: Moments, from: int)
    requires
        0 <= from <= prices.len(),
    ensures
        from <= trim_start(prices, moments, from) <= prices.len(),
        from <= trim_end(prices, moments, from) <= prices.len(),
    decreases prices.len() - from,
{
    if from < prices.len() {
        lemma_trim_bounds(prices, moments, from + 1);
    }
}

/// Every price from `from` up to `trim_start` lies too far under the mean, and the price at
/// `trim_start`, if there is one, does not.
proof fn lemma_trim_start(prices: Seq<u64>, moments: Moments, from: int)
    requires
        0 <= from <= prices.len(),
    ensures
        forall|i: int|
            from <= i < trim_start(prices, moments, from) ==> moments.below(#[trigger] prices[i]),
        trim_start(prices, moments, from) < prices.len() ==> !moments.below(
            prices[trim_start(prices, moments, from)],
        ),
    decreases prices.len() - from,
{
    if from < prices.len() && moments.below(prices[from]) {
        lemma_trim_start(prices, moments, from + 1);
    }
}

/// No price from `from` up to `trim_end` lies too far over the mean, and the price at
/// `trim_end`, if there is one, does.
proof fn lemma_trim_end(prices: Seq<u64>, moments: Moments, from: int)
    requires
        0 <= from <= prices.len(),
    ensures
        forall|i: int|
            from <= i < trim_end(prices, moments, from) ==> !moments.above(#[trigger] prices[i]),
        trim_end(prices, moments, from) < prices.len() ==> moments.above(
            prices[trim_end(prices, moments, from)],
        ),
    decreases prices.len() - from,
{
    if from < prices.len() && !moments.above(prices[from]) {
        lemma_trim_end(prices, moments, from + 1);
    }
}

/// Trimming passes over prices that all lie too far under the mean.
pub proof fn lemma_trim_start_run(prices: Seq<u64>, moments: Moments, from: int, to: int)
    requires
        0 <= from <= to <= prices.len(),
        forall|k: int| from <= k < to ==> moments.below(#[trigger] prices[k]),
    ensures
        trim_start(prices, moments, from) == trim_start(prices, moments, to),
    decreases to - from,
{
    if from < to {
        assert(moments.below(prices[from]));
        lemma_trim_start_run(prices, moments, from + 1, to);
    }
}

/// Trimming keeps prices of which none lies too far over the mean.
pub proof fn lemma_trim_end_run(prices: Seq<u64>, moments: Moments, from: int, to: int)
    requires
        0 <= from <= to <= prices.len(),
        forall|k: int| from <= k < to ==> !moments.above(#[trigger] prices[k]),
    ensures
        trim_end(prices, moments, from) == trim_end(prices, moments, to),
    decreases to - from,
{
    if from < to {
        assert(!moments.above(prices[from]));
        lemma_trim_end_run(prices, moments, from + 1, to);
    }
}

/// What trimming keeps of ascending prices: the prices from `trim_start` to `trim_end` are those
/// that lie neither too far under nor too far over the mean, all prices before them lie too far
/// under it, and all prices after them too far over it.
pub proof fn lemma_trim_bands(prices: Seq<u64>, moments: Moments)
    requires
        ascending(prices),
    ensures
        ({
            let start = trim_start(prices, moments, 0);
            let end = trim_end(prices, moments, start);
            &&& 0 <= start <= end <= prices.len()
            &&& forall|i: int| 0 <= i < start ==> moments.below(#[trigger] prices[i])
            &&& forall|i: int|
                start <= i < end ==> !moments.below(#[trigger] prices[i]) && !moments.above(
                    prices[i],
                )
            &&& forall|i: int| end <= i < prices.len() ==> moments.above(#[trigger] prices[i])
        }),
{
    let start = trim_start(prices, moments, 0);
    let end = trim_end(prices, moments, start);
    lemma_trim_bounds(prices, moments, 0);
    lemma_trim_bounds(prices, moments, start);
    lemma_trim_start(prices, moments, 0);
    lemma_trim_end(prices, moments, start);
    assert forall|i: int| start <= i < end implies !moments.below(#[trigger] prices[i])
        && !moments.above(prices[i]) by {
        lemma_bands_ordered(moments, prices[start], prices[i]);
    }
    assert forall|i: int| end <= i < prices.len() implies moments.above(#[trigger] prices[i]) by {
        lemma_bands_ordered(moments, prices[end], prices[i]);
    }
}

/// Trimming never drops every price: of ascending prices it keeps at least one.
pub proof fn lemma_trimmed_prices_not_empty(prices: Seq<u64>)
    requires
        ascending(prices),
        prices_within_limits(prices),
        prices.len() > 0,
    ensures
        trimmed_prices(prices).len() > 0,
        forall|i: int|
            0 <= i < trimmed_prices(prices).len() ==> prices.contains(
                #[trigger] trimmed_prices(prices)[i],
            ),
{
    let moments = Moments::of_prices(prices);
    let start = trim_start(prices, moments, 0);
    let end = trim_end(prices, moments, start);
    lemma_trim_bands(prices, moments);
    lemma_units_within_limits(prices);
    lemma_units_totals(prices);
    lemma_units_moments(prices);
    lemma_some_within_bands(units(prices));
    let at = choose|i: int|
        0 <= i < units(prices).len() && (#[trigger] units(prices)[i]).1 > 0 && !moments.below(
            units(prices)[i].0,
        ) && !moments.above(units(prices)[i].0);
    assert(units(prices)[at].0 == prices[at]);
    assert(start <= at < end);
    let kept = trimmed_prices(prices);
    assert forall|i: int| 0 <= i < kept.len() implies prices.contains(#[trigger] kept[i]) by {
        assert(kept[i] == prices[start + i]);
    }
}

/// Trimming never drops every unit: of a series with units, ascending by price, it keeps a pair
/// with units.
pub proof fn lemma_trimmed_series_has_units(series: Seq<(u64, u64)>)
    requires
        ascending_by_first(series),
        series_within_limits(series),
        quantity_total(series) > 0,
    ensures
        quantity_total(trimmed_series(series)) > 0,
        forall|i: int|
            0 <= i < trimmed_series(series).len() ==> series.contains(
                #[trigger] trimmed_series(series)[i],
            ),
{
    let moments = Moments::of_series(series);
    let prices = prices_of(series);
    let start = trim_start(prices, moments, 0);
    let end = trim_end(prices, moments, start);
    assert(ascending(prices));
    lemma_trim_bands(prices, moments);
    lemma_some_within_bands(series);
    let at = choose|i: int|
        0 <= i < series.len() && (#[trigger] series[i]).1 > 0 && !moments.below(series[i].0)
            && !moments.above(series[i].0);
    assert(prices[at] == series[at].0);
    assert(start <= at < end);
    let kept = trimmed_series(series);
    assert(kept[at - start] == series[at]);
    lemma_totals_remove(kept, at - start);
    assert forall|i: int| 0 <= i < kept.len() implies series.contains(#[trigger] kept[i]) by {
        assert(kept[i] == series[start + i]);
    }
}

} // verus!
