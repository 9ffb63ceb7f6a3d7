//! Where the normalized market price of a series is the normalized market price of its units.
//!
//! The two look at the same units, a pair at a time and a unit at a time. They can come apart
//! only over what a list of units cannot hold or tells apart: a pair without units, whose price
//! the walk over the series looks at, and units that cost nothing, of which each is a jump from
//! the one before it.

use crate::utils::expansion::{
    expanded, lemma_expanded_ascending, lemma_expanded_index, lemma_expanded_prefix,
    lemma_expanded_subrange, lemma_expanded_totals, lemma_expanded_within_limits, units_before,
};
use crate::utils::moments::{lemma_series_moments_bounded, Moments};
use crate::utils::series::{
    lemma_quantity_prefix, prices_of, prices_within_reach, quantity_total, series_within_limits,
    series_within_reach,
};
use crate::utils::sorting::{ascending_by_first, lemma_sorted_prices_unique};
use crate::utils::stats::{
    lemma_percentile_units, lemma_single_unit_price, lemma_window_of_sorted,
    normalized_market_price_spec, normalized_price_of_sorted, percentile_index_spec,
    percentile_units_spec, MINIMUM_PRICES_PERCENTILE,
};
use crate::utils::trimming::{
    lemma_trim_bounds, lemma_trim_end_run, lemma_trim_start_run, trim_end, trim_start,
    trimmed_prices, trimmed_series,
};
use crate::utils::window::{lemma_window_run, weighted_window, window_end, within_jump};
use vstd::prelude::*;

verus! {

/// Whether every pair has units, and every unit a price.
pub open spec fn all_positive(series: Seq<(u64, u64)>) -> bool {
    forall|i: int| 0 <= i < series.len() ==> (#[trigger] series[i]).0 > 0 && series[i].1 > 0
}

/// Trimming the units of a series starts at the units of the pair at which trimming the series
/// starts.
proof fn lemma_trim_start_of_units(series: Seq<(u64, u64)>, moments: Moments, from: int)
    requires
        all_positive(series),
        0 <= from <= series.len(),
    ensures
        trim_start(expanded(series), moments, units_before(series, from) as int) == units_before(
            series,
            trim_start(prices_of(series), moments, from),
        ),
    decreases series.len() - from,
{
    let units = expanded(series);
    let prices = prices_of(series);
    lemma_expanded_totals(series);
    lemma_expanded_prefix(series, from);
    if from < series.len() {
        assert(prices[from] == series[from].0);
        assert(series.take(from + 1).drop_last() =~= series.take(from));
        let first = units_before(series, from) as int;
        lemma_expanded_index(series, from, 0);
        if moments.below(series[from].0) {
            let next = units_before(series, from + 1) as int;
            assert forall|k: int| first <= k < next implies moments.below(#[trigger] units[k]) by {
                lemma_expanded_index(series, from, k - first);
            }
            lemma_expanded_prefix(series, from + 1);
            lemma_trim_start_run(units, moments, first, next);
            lemma_trim_start_of_units(series, moments, from + 1);
        }
    } else {
        assert(series.take(from) =~= series);
    }
}

/// Trimming the units of a series ends at the units of the pair at which trimming the series
/// ends.
proof fn lemma_trim_end_of_units(series: Seq<(u64, u64)>, moments: Moments, from: int)
    requires
        all_positive(series),
        0 <= from <= series.len(),
    ensures
        trim_end(expanded(series), moments, units_before(series, from) as int) == units_before(
            series,
            trim_end(prices_of(series), moments, from),
        ),
    decreases series.len() - from,
{
    let units = expanded(series);
    let prices = prices_of(series);
    lemma_expanded_totals(series);
    lemma_expanded_prefix(series, from);
    if from < series.len() {
        assert(prices[from] == series[from].0);
        assert(series.take(from + 1).drop_last() =~= series.take(from));
        let first = units_before(series, from) as int;
        lemma_expanded_index(series, from, 0);
        if !moments.above(series[from].0) {
            let next = units_before(series, from + 1) as int;
            assert forall|k: int| first <= k < next implies !moments.above(#[trigger] units[k]) by {
                lemma_expanded_index(series, from, k - first);
            }
            lemma_expanded_prefix(series, from + 1);
            lemma_trim_end_run(units, moments, first, next);
            lemma_trim_end_of_units(series, moments, from + 1);
        }
    } else {
        assert(series.take(from) =~= series);
    }
}

/// The units of a trimmed series are the trimmed units of the series.
pub proof fn lemma_trimmed_units(series: Seq<(u64, u64)>)
    requires
        all_positive(series),
        series_within_limits(series),
    ensures
        expanded(trimmed_series(series)) == trimmed_prices(expanded(series)),
{
    let units = expanded(series);
    lemma_expanded_totals(series);
    lemma_series_moments_bounded(series);
    let moments = Moments::of_series(series);
    assert(moments == Moments::of_prices(units));
    let prices = prices_of(series);
    let start = trim_start(prices, moments, 0);
    lemma_trim_bounds(prices, moments, 0);
    let end = trim_end(prices, moments, start);
    lemma_trim_bounds(prices, moments, start);
    assert(series.take(0) =~= Seq::<(u64, u64)>::empty());
    lemma_trim_start_of_units(series, moments, 0);
    lemma_trim_end_of_units(series, moments, start);
    lemma_expanded_subrange(series, start, end);
}

/// The units of the window of a series are the window of its units, where the walk over the
/// series stands at the pair at `next` with `taken` units, and the window of the units has grown
/// as far.
proof fn lemma_window_of_units(
    series: Seq<(u64, u64)>,
    floor: int,
    ceiling: int,
    next: int,
    taken: int,
)
    requires
        all_positive(series),
        1 <= floor <= ceiling <= quantity_total(series),
        0 <= next <= series.len(),
        taken == units_before(series, next),
        taken <= ceiling,
        taken <= floor || window_end(expanded(series), floor - 1, ceiling - 1) == window_end(
            expanded(series),
            taken - 1,
            ceiling - 1,
        ),
    ensures
        expanded(weighted_window(series, floor, ceiling, next, taken)) == expanded(series).take(
            window_end(expanded(series), floor - 1, ceiling - 1) + 1,
        ),
    decreases series.len() - next,
{
    let units = expanded(series);
    let limit = ceiling - 1;
    lemma_expanded_totals(series);
    lemma_expanded_prefix(series, next);
    if next >= series.len() {
        assert(series.take(next) =~= series);
    }
    if taken >= ceiling || next >= series.len() {
        // The walk is over: all units that may be in are in.
    } else {
        let price = series[next].0;
        let quantity = series[next].1 as int;
        assert(series.take(next + 1).drop_last() =~= series.take(next));
        assert(units_before(series, next + 1) == taken + quantity);
        lemma_quantity_prefix(series, next + 1);
        assert forall|k: int| 0 <= k < quantity implies #[trigger] units[taken + k] == price by {
            lemma_expanded_index(series, next, k);
        }
        if next > 0 {
            assert(series.take(next).drop_last() =~= series.take(next - 1));
            lemma_expanded_index(series, next - 1, series[next - 1].1 - 1);
            assert(units[taken - 1] == series[next - 1].0);
        }
        if taken >= floor && !within_jump(series[next - 1].0, price) {
            // The walk ends at a jump, and so does the window of the units.
            assert(units[taken + 0] == price);
        } else {
            let part = if taken + quantity <= ceiling {
                quantity
            } else {
                ceiling - taken
            };
            let end = taken + part - 1;
            if taken + part > floor {
                let from = if taken >= floor {
                    taken - 1
                } else {
                    floor - 1
                };
                if taken >= floor {
                    assert(units[taken + 0] == price);
                    assert(within_jump(units[taken - 1], units[taken]));
                }
                assert forall|k: int| from <= k < end implies within_jump(
                    #[trigger] units[k],
                    units[k + 1],
                ) by {
                    if k >= taken {
                        assert(units[taken + (k - taken)] == price);
                        assert(units[taken + (k + 1 - taken)] == price);
                    }
                }
                lemma_window_run(units, from, end, limit);
            }
            if taken + quantity <= ceiling {
                lemma_window_of_units(series, floor, ceiling, next + 1, taken + quantity);
            } else {
                let window = weighted_window(series, floor, ceiling, next, taken);
                assert(window.drop_last() =~= series.take(next));
                assert(window.last() == (price, part as u64));
                assert(expanded(window) =~= units.take(ceiling)) by {
                    assert forall|i: int| 0 <= i < ceiling implies expanded(window)[i]
                        == units[i] by {
                        if i >= taken {
                            assert(units[taken + (i - taken)] == price);
                        }
                    }
                }
            }
        }
    }
}

/// The normalized market price of a series is the normalized market price of its units, where
/// every pair of the series has units and every unit a price.
pub proof fn lemma_weighted_agrees_with_units(series: Seq<(u64, u64)>)
    requires
        ascending_by_first(series),
        series_within_reach(series),
        all_positive(series),
        quantity_total(series) <= usize::MAX,
    ensures
        prices_within_reach(expanded(series)),
        normalized_price_of_sorted(series) == normalized_market_price_spec(expanded(series)),
{
    let units = expanded(series);
    let count = quantity_total(series) as int;
    lemma_expanded_totals(series);
    if count >= 2 {
        lemma_expanded_within_limits(series);
    }
    lemma_expanded_ascending(series);
    lemma_sorted_prices_unique(units, units);
    if count == 0 {
    } else if count == 1 {
        assert(series.len() > 0) by {
            if series.len() == 0 {
                assert(series =~= Seq::<(u64, u64)>::empty());
            }
        }
        assert(series.take(0) =~= Seq::<(u64, u64)>::empty());
        lemma_expanded_index(series, 0, 0);
        lemma_single_unit_price(series, 0);
    } else {
        let floor = percentile_units_spec(MINIMUM_PRICES_PERCENTILE as int, count);
        let ceiling = percentile_units_spec(2 * MINIMUM_PRICES_PERCENTILE as int, count);
        lemma_percentile_units(
            MINIMUM_PRICES_PERCENTILE as int,
            2 * MINIMUM_PRICES_PERCENTILE as int,
            count,
        );
        assert(floor - 1 == percentile_index_spec(MINIMUM_PRICES_PERCENTILE as int, count));
        assert(ceiling - 1 == percentile_index_spec(2 * MINIMUM_PRICES_PERCENTILE as int, count));
        let window = weighted_window(series, floor, ceiling, 0, 0);
        let end = window_end(units, floor - 1, ceiling - 1);
        assert(series.take(0) =~= Seq::<(u64, u64)>::empty());
        lemma_window_of_units(series, floor, ceiling, 0, 0);
        assert(expanded(window) == units.take(end + 1));
        lemma_window_of_sorted(series);
        lemma_expanded_totals(window);
        if quantity_total(window) >= 2 {
            lemma_window_positive(series, floor, ceiling);
            lemma_trimmed_units(window);
            lemma_expanded_totals(trimmed_series(window));
        }
    }
}

/// The window of a series of which every pair has units and every unit a price is such a series.
proof fn lemma_window_positive(series: Seq<(u64, u64)>, floor: int, ceiling: int)
    requires
        all_positive(series),
        1 <= floor <= ceiling <= quantity_total(series),
    ensures
        all_positive(weighted_window(series, floor, ceiling, 0, 0)),
{
    assert(series.take(0) =~= Seq::<(u64, u64)>::empty());
    lemma_window_quantities(series, floor, ceiling, 0, 0);
}

/// Every pair of the window has the price of the pair of the series at its place, and units
/// where that pair has units.
proof fn lemma_window_quantities(
    series: Seq<(u64, u64)>,
    floor: int,
    ceiling: int,
    next: int,
    taken: int,
)
    requires
        all_positive(series),
        0 <= next <= series.len(),
        0 <= taken,
    ensures
        all_positive(weighted_window(series, floor, ceiling, next, taken)),
    decreases series.len() - next,
{
    let window = weighted_window(series, floor, ceiling, next, taken);
    if taken >= ceiling || next >= series.len() {
        assert forall|i: int| 0 <= i < window.len() implies (#[trigger] window[i]).0 > 0
            && window[i].1 > 0 by {
            assert(window[i] == series[i]);
        }
    } else if taken >= floor && next > 0 && !within_jump(series[next - 1].0, series[next].0) {
        assert forall|i: int| 0 <= i < window.len() implies (#[trigger] window[i]).0 > 0
            && window[i].1 > 0 by {
            assert(window[i] == series[i]);
        }
    } else if taken + series[next].1 <= ceiling {
        lemma_window_quantities(series, floor, ceiling, next + 1, taken + series[next].1);
    } else {
        assert forall|i: int| 0 <= i < window.len() implies (#[trigger] window[i]).0 > 0
            && window[i].1 > 0 by {
            if i < next {
                assert(window[i] == series[i]);
            } else {
                assert(window[i].0 == series[next].0);
            }
        }
    }
}

} // verus!
