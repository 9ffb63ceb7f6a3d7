//! Price estimates over auction prices: percentile indices, means, deviations, and the three
//! market-price estimators.
//!
//! Percentiles are given in hundredths of a percent, so `1587` is 15.87 %. All results are exact:
//! a mean is rounded to the nearest integer, halves upwards, a deviation is held as its variance,
//! and a price is compared with the mean and the deviation without taking a root.

use crate::utils::moments::{lemma_rounded_div_between, rounded_div, rounded_division, Moments};
use crate::utils::series::{
    amount_total, count_units, lemma_amount_between, lemma_empty_totals, lemma_part_within_limits,
    lemma_prices_part_within_limits, lemma_subrange_within_limits, lemma_totals_permutation,
    lemma_totals_remove, lemma_unit_holder, lemma_units_totals, prices_of, prices_within_limits,
    prices_within_reach, quantity_total, series_within_limits, series_within_reach, square_sum,
    square_total, sum, units, PRICE_LIMIT,
};
use crate::utils::sorting::{
    ascending, ascending_by_first, lemma_same_values, lemma_sorted_prices,
    lemma_sorted_prices_unique, lemma_sorted_series, lemma_sorted_series_unique, sort_prices,
    sort_series, sorted_prices, sorted_series,
};
use crate::utils::trimming::{
    find_series_trim_end, find_series_trim_start, find_trim_end, find_trim_start,
    lemma_trim_bounds, lemma_trimmed_prices_not_empty, lemma_trimmed_series_has_units, trim_end,
    trim_start, trimmed_prices, trimmed_series,
};
use crate::utils::window::{
    lemma_weighted_window, lemma_window_end, take_window, weighted_window, window_end,
};
use vstd::prelude::*;
use vstd::slice::{slice_subrange, slice_to_vec};

verus! {

/// One percent, in the unit in which percentiles are given.
pub const PERCENT: u64 = 100;

/// The lowest share of the prices that `normalized_market_price` always looks at: 15 %.
pub const MINIMUM_PRICES_PERCENTILE: u64 = 1500;

/// The share of a normal distribution that lies more than one standard deviation under the
/// mean: 15.87 %.
pub const FIRST_STANDARD_DEV_PERCENTILE: u64 = 1587;

/// A price ends the window of `normalized_market_price` where it is at least 6/5 of the price
/// before it: the numerator.
pub const MAX_PRICE_DIFF_NUMERATOR: u64 = 6;

/// The denominator that goes with `MAX_PRICE_DIFF_NUMERATOR`.
pub const MAX_PRICE_DIFF_DENOMINATOR: u64 = 5;

/// An exact fraction.
#[derive(Clone, Copy, Debug, PartialEq, Eq, Structural)]
pub struct Ratio {
    /// What is divided.
    pub numerator: u128,
    /// What it is divided by.
    pub denominator: u128,
}

/// A standard deviation, held exactly: it is the square root of its variance.
#[derive(Clone, Copy, Debug, PartialEq, Eq, Structural)]
pub struct StdDev {
    /// The variance.
    pub variance: Ratio,
}

/// The index that `percentile_index` returns, over unbounded integers. `percentile` is in
/// hundredths of a percent.
pub open spec fn percentile_index_spec(percentile: int, len: int) -> int {
    let count = (percentile * len) / 10000;
    let capped = if count > usize::MAX {
        usize::MAX as int
    } else {
        count
    };
    if capped <= 0 {
        0
    } else {
        capped - 1
    }
}

/// Zero-based index of the element at `percentile` (in hundredths of a percent) in an ascending
/// collection of `len` elements: the number of elements that make up that share, rounded down,
/// less one, and 0 where that number is 0.
pub fn percentile_index(percentile: u64, len: usize) -> (index: usize)
    requires
        len > 0,
    ensures
        index == percentile_index_spec(percentile as int, len as int),
        percentile <= 10000 ==> index < len,
{
    assert(0 <= percentile * len <= u64::MAX * u64::MAX) by (nonlinear_arith)
        requires
            0 <= percentile <= u64::MAX,
            0 <= len <= u64::MAX,
    ;
    let product: u128 = (percentile as u128) * (len as u128);
    let count: u128 = product / 10000;
    assert(percentile <= 10000 ==> count <= len) by (nonlinear_arith)
        requires
            count == product / 10000,
            product == percentile * len,
    ;
    if count == 0 {
        0
    } else if count > usize::MAX as u128 {
        usize::MAX - 1
    } else {
        (count - 1) as usize
    }
}

/// The index grows with the percentile and, up to 100 %, stays inside the collection.
pub proof fn lemma_percentile_index_monotonic(lower: int, higher: int, len: int)
    requires
        0 <= lower <= higher,
        0 < len,
    ensures
        percentile_index_spec(lower, len) <= percentile_index_spec(higher, len),
        higher <= 10000 ==> percentile_index_spec(higher, len) < len,
        0 <= percentile_index_spec(lower, len),
{
    assert((lower * len) / 10000 <= (higher * len) / 10000) by (nonlinear_arith)
        requires
            0 <= lower <= higher,
            0 < len,
    ;
    assert(higher <= 10000 ==> (higher * len) / 10000 <= len) by (nonlinear_arith)
        requires
            0 <= higher,
            0 < len,
    ;
}

/// The number of units that make up `percentile` (in hundredths of a percent) of `units` units,
/// rounded down, and at least one.
pub open spec fn percentile_units_spec(percentile: int, units: int) -> int {
    let count = (percentile * units) / 10000;
    if count < 1 {
        1
    } else {
        count
    }
}

/// Computes `percentile_units_spec`: one more than the percentile index.
pub fn percentile_units(percentile: u64, units: u64) -> (count: u64)
    requires
        percentile <= 10000,
    ensures
        count == percentile_units_spec(percentile as int, units as int),
        units > 0 ==> count <= units,
{
    assert(0 <= percentile * units <= u64::MAX * u64::MAX) by (nonlinear_arith)
        requires
            0 <= percentile <= u64::MAX,
            0 <= units <= u64::MAX,
    ;
    let product: u128 = (percentile as u128) * (units as u128);
    let count: u128 = product / 10000;
    assert(count <= units) by (nonlinear_arith)
        requires
            count == product / 10000,
            product == percentile * units,
            percentile <= 10000,
            units >= 0,
    ;
    if count < 1 {
        1
    } else {
        count as u64
    }
}

/// The number of units grows with the percentile and, up to 100 %, is no more than there are
/// units. It is one more than the percentile index.
pub proof fn lemma_percentile_units(lower: int, higher: int, units: int)
    requires
        0 <= lower <= higher,
        0 < units,
    ensures
        1 <= percentile_units_spec(lower, units) <= percentile_units_spec(higher, units),
        higher <= 10000 ==> percentile_units_spec(higher, units) <= units,
        units <= usize::MAX && higher <= 10000 ==> percentile_units_spec(higher, units)
            == percentile_index_spec(higher, units) + 1,
{
    assert((lower * units) / 10000 <= (higher * units) / 10000) by (nonlinear_arith)
        requires
            0 <= lower <= higher,
            0 < units,
    ;
    assert(higher <= 10000 ==> (higher * units) / 10000 <= units) by (nonlinear_arith)
        requires
            0 <= higher,
            0 < units,
    ;
}

/// Adds up the prices.
pub fn sum_prices(prices: &[u64]) -> (total: u128)
    ensures
        total == sum(prices@),
        total <= prices.len() * u64::MAX,
{
    let mut total: u128 = 0;
    let mut i: usize = 0;
    while i < prices.len()
        invariant
            i <= prices.len(),
            total == sum(prices@.take(i as int)),
            total <= i * u64::MAX,
        decreases prices.len() - i,
    {
        proof {
            assert(prices@.take(i + 1).drop_last() =~= prices@.take(i as int));
            assert((i + 1) * u64::MAX == i * u64::MAX + u64::MAX) by (nonlinear_arith);
            assert((i + 1) * u64::MAX <= u64::MAX * u64::MAX) by (nonlinear_arith)
                requires
                    i + 1 <= u64::MAX,
            ;
        }
        total = total + prices[i] as u128;
        i = i + 1;
    }
    proof {
        assert(prices@.take(prices.len() as int) =~= prices@);
    }
    total
}

/// The mean of the values, rounded to the nearest integer; 0 for no values.
pub open spec fn rounded_mean(values: Seq<u64>) -> int {
    rounded_div(sum(values) as int, values.len() as int)
}

/// Computes `rounded_mean`.
pub fn mean_rounded(values: &[u64]) -> (mean: u64)
    ensures
        mean == rounded_mean(values@),
{
    if values.len() == 0 {
        return 0;
    }
    let total = sum_prices(values);
    let count = values.len() as u128;
    let mean = rounded_division(total, count);
    assert(mean <= u64::MAX) by (nonlinear_arith)
        requires
            mean == (2 * total + count) / (2 * count),
            total <= count * u64::MAX,
            count > 0,
    ;
    mean as u64
}

/// The mean price of the units of a series, rounded to the nearest integer; 0 for no units.
pub open spec fn weighted_rounded_mean(series: Seq<(u64, u64)>) -> int {
    rounded_div(amount_total(series) as int, quantity_total(series) as int)
}

/// Computes `weighted_rounded_mean`.
pub fn mean_rounded_amount_qty(series: &[(u64, u64)]) -> (mean: u64)
    requires
        series_within_limits(series@),
    ensures
        mean == weighted_rounded_mean(series@),
{
    let moments = Moments::from_series(series);
    if moments.count == 0 {
        0
    } else {
        rounded_division(moments.total, moments.count) as u64
    }
}

/// The mean of the numbers, as the fraction of their sum and their number.
pub fn mean(numbers: &[u64]) -> (mean: Ratio)
    requires
        numbers.len() > 0,
    ensures
        mean.numerator == sum(numbers@),
        mean.denominator == numbers.len(),
{
    Ratio { numerator: sum_prices(numbers), denominator: numbers.len() as u128 }
}

/// The mean amount of the units of a series of `(amount, quantity)` pairs, as the fraction of
/// the sum of their amounts and their number.
pub fn mean_amount_qty(amount_qty: &[(u64, u64)]) -> (mean: Ratio)
    requires
        quantity_total(amount_qty@) > 0,
        series_within_limits(amount_qty@),
    ensures
        mean.numerator == amount_total(amount_qty@),
        mean.denominator == quantity_total(amount_qty@),
{
    let moments = Moments::from_series(amount_qty);
    Ratio { numerator: moments.total, denominator: moments.count }
}

/// The standard deviation of units with these moments: its variance is the spread over the
/// squared count for a population, and over the count times the count less one for a sample.
pub open spec fn std_dev_of(moments: Moments, is_population: bool) -> StdDev {
    StdDev {
        variance: Ratio {
            numerator: moments.spread() as u128,
            denominator: if is_population {
                (moments.count * moments.count) as u128
            } else {
                (moments.count * (moments.count - 1)) as u128
            },
        },
    }
}

/// Computes `std_dev_of`.
fn std_dev_from(moments: &Moments, is_population: bool) -> (deviation: StdDev)
    requires
        moments.bounded(),
        moments.count >= 1,
    ensures
        deviation == std_dev_of(*moments, is_population),
        deviation.variance.numerator == moments.spread(),
        deviation.variance.denominator == if is_population {
            moments.count * moments.count
        } else {
            moments.count * (moments.count - 1)
        },
{
    assert(moments.count * moments.count <= PRICE_LIMIT * PRICE_LIMIT) by (nonlinear_arith)
        requires
            moments.count <= PRICE_LIMIT,
    ;
    assert(moments.count * (moments.count - 1) <= PRICE_LIMIT * PRICE_LIMIT) by (nonlinear_arith)
        requires
            1 <= moments.count <= PRICE_LIMIT,
    ;
    assert(PRICE_LIMIT * PRICE_LIMIT < 0x1000_0000_0000_0000_0000_0000_0000_0000u128);
    let denominator = if is_population {
        moments.count * moments.count
    } else {
        moments.count * (moments.count - 1)
    };
    StdDev { variance: Ratio { numerator: moments.spread_value(), denominator } }
}

/// The standard deviation of the numbers, taken as a whole population or as a sample of one.
/// Fewer than two numbers have none.
pub fn std_dev(numbers: &[u64], is_population: bool) -> (deviation: Option<StdDev>)
    requires
        prices_within_reach(numbers@),
    ensures
        deviation == if numbers.len() < 2 {
            None
        } else {
            Some(std_dev_of(Moments::of_prices(numbers@), is_population))
        },
        deviation matches Some(deviation) ==> {
            &&& deviation.variance.numerator == numbers.len() * square_sum(numbers@) - sum(
                numbers@,
            ) * sum(numbers@)
            &&& deviation.variance.denominator == numbers.len() * if is_population {
                numbers.len() as int
            } else {
                numbers.len() - 1
            }
        },
{
    if numbers.len() < 2 {
        return None;
    }
    let moments = Moments::from_prices(numbers);
    Some(std_dev_from(&moments, is_population))
}

/// The standard deviation of the amounts of the units of a series of `(amount, quantity)` pairs,
/// taken as a whole population or as a sample of one. Fewer than two units have none.
pub fn std_dev_amount_qty(amount_qty: &[(u64, u64)], is_population: bool) -> (deviation: Option<
    StdDev,
>)
    requires
        series_within_reach(amount_qty@),
    ensures
        deviation == if quantity_total(amount_qty@) < 2 {
            None
        } else {
            Some(std_dev_of(Moments::of_series(amount_qty@), is_population))
        },
        deviation matches Some(deviation) ==> {
            &&& deviation.variance.numerator == quantity_total(amount_qty@) * square_total(
                amount_qty@,
            ) - amount_total(amount_qty@) * amount_total(amount_qty@)
            &&& deviation.variance.denominator == quantity_total(amount_qty@) * if is_population {
                quantity_total(amount_qty@) as int
            } else {
                quantity_total(amount_qty@) - 1
            }
        },
{
    if count_units(amount_qty) < 2 {
        return None;
    }
    let moments = Moments::from_series(amount_qty);
    Some(std_dev_from(&moments, is_population))
}

/// What `median` returns: the middle one of the sorted values, the upper of the two middle ones
/// where their number is even.
pub open spec fn median_spec(numbers: Seq<u64>) -> u64 {
    sorted_prices(numbers)[numbers.len() as int / 2]
}

/// The median of the numbers, which are sorted in place.
pub fn median(numbers: &mut [u64]) -> (middle: u64)
    requires
        old(numbers)@.len() > 0,
    ensures
        final(numbers)@ == sorted_prices(old(numbers)@),
        middle == median_spec(old(numbers)@),
{
    sort_prices(numbers);
    proof {
        lemma_same_values(numbers@, old(numbers)@);
        lemma_sorted_prices_unique(numbers@, old(numbers)@);
    }
    let mid = numbers.len() / 2;
    numbers[mid]
}

/// What `market_price` returns: the rounded mean of the lowest prices, up to the one at the
/// 15.87th percentile.
pub open spec fn market_price_spec(prices: Seq<u64>) -> Option<u64> {
    if prices.len() == 0 {
        None
    } else if prices.len() == 1 {
        Some(prices[0])
    } else {
        let last = percentile_index_spec(FIRST_STANDARD_DEV_PERCENTILE as int, prices.len() as int);
        Some(rounded_mean(sorted_prices(prices).take(last + 1)) as u64)
    }
}

/// The market price of an item: the mean price of the cheapest 15.87 % of the units listed.
///
/// No price gives `None`, and one price gives that price.
pub fn market_price(prices: &[u64]) -> (price: Option<u64>)
    ensures
        price == market_price_spec(prices@),
        prices.len() == 0 <==> price is None,
        prices.len() == 1 ==> price == Some(prices[0]),
{
    if prices.len() == 0 {
        return None;
    } else if prices.len() == 1 {
        return Some(prices[0]);
    }
    let last = percentile_index(FIRST_STANDARD_DEV_PERCENTILE, prices.len());
    let mut sorted = slice_to_vec(prices);
    sort_prices(sorted.as_mut_slice());
    proof {
        lemma_same_values(sorted@, prices@);
        lemma_sorted_prices_unique(sorted@, prices@);
    }
    let lowest = slice_subrange(sorted.as_slice(), 0, last + 1);
    Some(mean_rounded(lowest))
}

/// Drops the prices at either end of an ascending list that lie more than one and a half
/// population standard deviations away from its mean.
pub fn normalize_from_std_dev(prices: &[u64]) -> (kept: &[u64])
    requires
        prices.len() >= 2,
        ascending(prices@),
        prices_within_limits(prices@),
    ensures
        kept@ == trimmed_prices(prices@),
{
    let moments = Moments::from_prices(prices);
    let start = find_trim_start(prices, &moments);
    let end = find_trim_end(prices, &moments, start);
    slice_subrange(prices, start, end)
}

/// What `normalized_market_price` returns for the prices it is given.
pub open spec fn normalized_market_price_spec(prices: Seq<u64>) -> Option<u64> {
    if prices.len() == 0 {
        None
    } else if prices.len() == 1 {
        Some(prices[0])
    } else {
        let sorted = sorted_prices(prices);
        let floor = percentile_index_spec(MINIMUM_PRICES_PERCENTILE as int, prices.len() as int);
        let ceiling = percentile_index_spec(
            2 * MINIMUM_PRICES_PERCENTILE as int,
            prices.len() as int,
        );
        let window = sorted.take(window_end(sorted, floor, ceiling) + 1);
        if window.len() < 2 {
            Some(rounded_mean(window) as u64)
        } else {
            Some(rounded_mean(trimmed_prices(window)) as u64)
        }
    }
}

/// The market price of an item, outliers left out.
///
/// The prices are sorted in place. The cheapest 15 % of them are always looked at, and the next
/// ones up to the cheapest 30 % for as long as each is less than 1.2 times the one before it. Of
/// these, the ones more than one and a half standard deviations away from their mean are dropped
/// at either end, and the rounded mean of the rest is the result.
///
/// No price gives `None`, and one price gives that price.
pub fn normalized_market_price(prices: &mut [u64]) -> (price: Option<u64>)
    requires
        prices_within_reach(old(prices)@),
    ensures
        final(prices)@ == sorted_prices(old(prices)@),
        price == normalized_market_price_spec(old(prices)@),
        old(prices)@.len() == 0 <==> price is None,
        old(prices)@.len() == 1 ==> price == Some(old(prices)@[0]),
        old(prices)@.len() <= 1 ==> final(prices)@ == old(prices)@,
{
    if prices.len() == 0 {
        proof {
            lemma_sorted_prices_unique(prices@, prices@);
        }
        return None;
    } else if prices.len() == 1 {
        proof {
            lemma_sorted_prices_unique(prices@, prices@);
        }
        return Some(prices[0]);
    }
    sort_prices(prices);
    proof {
        lemma_same_values(prices@, old(prices)@);
        lemma_sorted_prices_unique(prices@, old(prices)@);
        lemma_prices_part_within_limits(prices@, old(prices)@);
    }
    let floor = percentile_index(MINIMUM_PRICES_PERCENTILE, prices.len());
    let ceiling = percentile_index(2 * MINIMUM_PRICES_PERCENTILE, prices.len());
    proof {
        lemma_percentile_index_monotonic(
            MINIMUM_PRICES_PERCENTILE as int,
            2 * MINIMUM_PRICES_PERCENTILE as int,
            prices.len() as int,
        );
    }
    let mut target = floor;
    while target < ceiling && MAX_PRICE_DIFF_DENOMINATOR as u128 * (prices[target + 1] as u128)
        < MAX_PRICE_DIFF_NUMERATOR as u128 * (prices[target] as u128)
        invariant
            floor <= target <= ceiling < prices.len(),
            window_end(prices@, floor as int, ceiling as int) == window_end(
                prices@,
                target as int,
                ceiling as int,
            ),
        decreases ceiling - target,
    {
        target = target + 1;
    }
    let window = slice_subrange(prices, 0, target + 1);
    proof {
        assert(window@ =~= prices@.take(target + 1));
        assert forall|i: int| 0 <= i < window@.len() implies prices@.contains(
            #[trigger] window@[i],
        ) by {
            assert(prices@[i] == window@[i]);
        }
        lemma_prices_part_within_limits(window@, prices@);
    }
    if window.len() < 2 {
        return Some(mean_rounded(window));
    }
    let kept = normalize_from_std_dev(window);
    Some(mean_rounded(kept))
}

/// Drops the pairs at either end of a series, ascending by price, whose price lies more than
/// one and a half population standard deviations away from the mean price of its units.
pub fn normalize_from_std_dev_price_qty(price_qty: &[(u64, u64)]) -> (kept: &[(u64, u64)])
    requires
        quantity_total(price_qty@) >= 2,
        ascending_by_first(price_qty@),
        series_within_limits(price_qty@),
    ensures
        kept@ == trimmed_series(price_qty@),
{
    let moments = Moments::from_series(price_qty);
    let start = find_series_trim_start(price_qty, &moments);
    let end = find_series_trim_end(price_qty, &moments, start);
    slice_subrange(price_qty, start, end)
}

/// What `normalized_market_price_with_qty` returns for a series once it ascends by price.
pub open spec fn normalized_price_of_sorted(series: Seq<(u64, u64)>) -> Option<u64> {
    let units = quantity_total(series) as int;
    if units == 0 {
        None
    } else {
        let floor = percentile_units_spec(MINIMUM_PRICES_PERCENTILE as int, units);
        let ceiling = percentile_units_spec(2 * MINIMUM_PRICES_PERCENTILE as int, units);
        let window = weighted_window(series, floor, ceiling, 0, 0);
        if quantity_total(window) < 2 {
            Some(weighted_rounded_mean(window) as u64)
        } else {
            Some(weighted_rounded_mean(trimmed_series(window)) as u64)
        }
    }
}

/// The market price of an item, outliers left out, from `(price, quantity)` pairs that ascend by
/// price.
///
/// The units are looked at as `normalized_market_price` looks at prices, a pair at a time: the
/// cheapest 15 % of the units always, then pairs up to the cheapest 30 % of the units for as
/// long as each pair's price is less than 1.2 times that of the pair before it, the last pair in
/// part where it reaches over that share. Pairs priced more than one and a half standard
/// deviations away from the mean are dropped at either end, and the rounded mean price of the
/// remaining units is the result. A series without units gives `None`.
pub fn normalized_market_price_of_sorted(series: &[(u64, u64)]) -> (price: Option<u64>)
    requires
        ascending_by_first(series@),
        series_within_reach(series@),
    ensures
        price == normalized_price_of_sorted(series@),
        quantity_total(series@) == 0 <==> price is None,
{
    let count = count_units(series);
    if count == 0 {
        return None;
    } else if count == 1 {
        return Some(single_unit_price(series));
    }
    let units = count as u64;
    let floor = percentile_units(MINIMUM_PRICES_PERCENTILE, units);
    let ceiling = percentile_units(2 * MINIMUM_PRICES_PERCENTILE, units);
    let window = take_window(series, floor, ceiling);
    proof {
        lemma_window_of_sorted(series@);
    }
    let within = Moments::from_series(window.as_slice());
    if within.count < 2 {
        return Some(mean_rounded_amount_qty(window.as_slice()));
    }
    let kept = normalize_from_std_dev_price_qty(window.as_slice());
    proof {
        let moments = Moments::of_series(window@);
        lemma_trim_bounds(prices_of(window@), moments, 0);
        let start = trim_start(prices_of(window@), moments, 0);
        lemma_trim_bounds(prices_of(window@), moments, start);
        lemma_subrange_within_limits(window@, start, trim_end(prices_of(window@), moments, start));
    }
    Some(mean_rounded_amount_qty(kept))
}

/// The market price of an item, outliers left out, from `(price, quantity)` pairs.
///
/// The pairs are sorted in place, by price and among pairs of one price by quantity, and the
/// result is that of `normalized_market_price_of_sorted` on the sorted pairs.
pub fn normalized_market_price_with_qty(price_qty: &mut [(u64, u64)]) -> (price: Option<u64>)
    requires
        series_within_reach(old(price_qty)@),
    ensures
        final(price_qty)@ == sorted_series(old(price_qty)@),
        price == normalized_price_of_sorted(sorted_series(old(price_qty)@)),
        quantity_total(old(price_qty)@) == 0 <==> price is None,
{
    sort_series(price_qty);
    proof {
        lemma_sorted_series_unique(price_qty@, old(price_qty)@);
        lemma_sorted_series(old(price_qty)@);
        lemma_totals_permutation(price_qty@, old(price_qty)@);
        if quantity_total(old(price_qty)@) >= 2 {
            lemma_sorted_within_limits(old(price_qty)@);
        }
    }
    normalized_market_price_of_sorted(price_qty)
}

/// The price of the one unit of a series that has one unit.
fn single_unit_price(series: &[(u64, u64)]) -> (price: u64)
    requires
        ascending_by_first(series@),
        quantity_total(series@) == 1,
    ensures
        Some(price) == normalized_price_of_sorted(series@),
{
    let mut i: usize = 0;
    proof {
        lemma_unit_holder(series@);
    }
    while i < series.len() && series[i].1 == 0
        invariant
            i <= series.len(),
            exists|k: int| i <= k < series.len() && (#[trigger] series@[k]).1 > 0,
        decreases series.len() - i,
    {
        i = i + 1;
    }
    proof {
        lemma_single_unit_price(series@, i as int);
    }
    series[i].0
}

/// The rounded mean of prices lies between the lowest and the highest of them.
pub proof fn lemma_mean_between(prices: Seq<u64>, lowest: u64, highest: u64)
    requires
        prices.len() > 0,
        forall|i: int| 0 <= i < prices.len() ==> lowest <= #[trigger] prices[i] <= highest,
    ensures
        lowest <= rounded_mean(prices) <= highest,
{
    lemma_units_totals(prices);
    assert forall|i: int| 0 <= i < units(prices).len() implies lowest <= (
    #[trigger] units(prices)[i]).0 <= highest by {
        assert(units(prices)[i].0 == prices[i]);
    }
    lemma_weighted_mean_between(units(prices), lowest, highest);
}

/// The rounded mean price of the units of a series lies between the lowest and the highest
/// price of the series.
pub proof fn lemma_weighted_mean_between(series: Seq<(u64, u64)>, lowest: u64, highest: u64)
    requires
        quantity_total(series) > 0,
        forall|i: int| 0 <= i < series.len() ==> lowest <= (#[trigger] series[i]).0 <= highest,
    ensures
        lowest <= weighted_rounded_mean(series) <= highest,
{
    lemma_amount_between(series, lowest as int, highest as int);
    lemma_rounded_div_between(
        amount_total(series) as int,
        quantity_total(series) as int,
        lowest as int,
        highest as int,
    );
}

/// A market price is a price within the range of the prices it was made of: no lower than the
/// lowest of them, and no higher than the highest.
pub proof fn lemma_market_price_in_range(prices: Seq<u64>)
    requires
        prices.len() > 0,
    ensures
        market_price_spec(prices) is Some,
        sorted_prices(prices).first() <= market_price_spec(prices)->0 <= sorted_prices(
            prices,
        ).last(),
{
    let sorted = sorted_prices(prices);
    lemma_sorted_prices(prices);
    if prices.len() == 1 {
        lemma_sorted_prices_unique(prices, prices);
    } else {
        let last = percentile_index_spec(FIRST_STANDARD_DEV_PERCENTILE as int, prices.len() as int);
        lemma_percentile_index_monotonic(
            FIRST_STANDARD_DEV_PERCENTILE as int,
            FIRST_STANDARD_DEV_PERCENTILE as int,
            prices.len() as int,
        );
        let lowest = sorted.take(last + 1);
        assert forall|i: int| 0 <= i < lowest.len() implies sorted.first() <= #[trigger] lowest[i]
            <= sorted.last() by {
            assert(lowest[i] == sorted[i]);
        }
        lemma_mean_between(lowest, sorted.first(), sorted.last());
    }
}

/// A normalized market price is a price within the range of the prices it was made of.
pub proof fn lemma_normalized_market_price_in_range(prices: Seq<u64>)
    requires
        prices.len() > 0,
        prices_within_reach(prices),
    ensures
        normalized_market_price_spec(prices) is Some,
        sorted_prices(prices).first() <= normalized_market_price_spec(prices)->0 <= sorted_prices(
            prices,
        ).last(),
{
    let sorted = sorted_prices(prices);
    lemma_sorted_prices(prices);
    if prices.len() == 1 {
        lemma_sorted_prices_unique(prices, prices);
    } else {
        lemma_same_values(sorted, prices);
        lemma_prices_part_within_limits(sorted, prices);
        let floor = percentile_index_spec(MINIMUM_PRICES_PERCENTILE as int, prices.len() as int);
        let ceiling = percentile_index_spec(
            2 * MINIMUM_PRICES_PERCENTILE as int,
            prices.len() as int,
        );
        lemma_percentile_index_monotonic(
            MINIMUM_PRICES_PERCENTILE as int,
            2 * MINIMUM_PRICES_PERCENTILE as int,
            prices.len() as int,
        );
        lemma_window_end(sorted, floor, ceiling);
        let window = sorted.take(window_end(sorted, floor, ceiling) + 1);
        assert forall|i: int| 0 <= i < window.len() implies sorted.contains(
            #[trigger] window[i],
        ) by {
            assert(window[i] == sorted[i]);
        }
        lemma_prices_part_within_limits(window, sorted);
        assert forall|i: int| 0 <= i < window.len() implies sorted.first() <= #[trigger] window[i]
            <= sorted.last() by {
            assert(window[i] == sorted[i]);
        }
        if window.len() < 2 {
            lemma_mean_between(window, sorted.first(), sorted.last());
        } else {
            assert(ascending(window)) by {
                assert forall|i: int, j: int| 0 <= i <= j < window.len() implies window[i]
                    <= window[j] by {
                    assert(window[i] == sorted[i] && window[j] == sorted[j]);
                }
            }
            lemma_trimmed_prices_not_empty(window);
            let kept = trimmed_prices(window);
            assert forall|i: int| 0 <= i < kept.len() implies sorted.first() <= #[trigger] kept[i]
                <= sorted.last() by {
                assert(window.contains(kept[i]));
                let j = choose|j: int| 0 <= j < window.len() && window[j] == kept[i];
                assert(sorted.first() <= window[j] <= sorted.last());
            }
            lemma_mean_between(kept, sorted.first(), sorted.last());
        }
    }
}

/// Sorting keeps a series within limits.
pub proof fn lemma_sorted_within_limits(series: Seq<(u64, u64)>)
    requires
        series_within_limits(series),
    ensures
        series_within_limits(sorted_series(series)),
        quantity_total(sorted_series(series)) == quantity_total(series),
{
    let sorted = sorted_series(series);
    lemma_sorted_series(series);
    lemma_totals_permutation(sorted, series);
    lemma_same_values(sorted, series);
    assert forall|i: int| 0 <= i < sorted.len() implies exists|j: int|
        0 <= j < series.len() && (#[trigger] sorted[i]).0 == series[j].0 by {
        let pair = sorted[i];
        assert(series.contains(pair));
        let j = choose|j: int| 0 <= j < series.len() && series[j] == pair;
        assert(sorted[i].0 == series[j].0);
    }
    lemma_part_within_limits(sorted, series);
}

/// The window of a series with units, ascending by price and within limits, ascends by price,
/// is within limits, and has units.
pub proof fn lemma_window_of_sorted(series: Seq<(u64, u64)>)
    requires
        ascending_by_first(series),
        series_within_limits(series),
        quantity_total(series) > 0,
    ensures
        ({
            let units = quantity_total(series) as int;
            let window = weighted_window(
                series,
                percentile_units_spec(MINIMUM_PRICES_PERCENTILE as int, units),
                percentile_units_spec(2 * MINIMUM_PRICES_PERCENTILE as int, units),
                0,
                0,
            );
            &&& ascending_by_first(window)
            &&& series_within_limits(window)
            &&& percentile_units_spec(MINIMUM_PRICES_PERCENTILE as int, units) <= quantity_total(
                window,
            ) <= percentile_units_spec(2 * MINIMUM_PRICES_PERCENTILE as int, units)
            &&& window.len() <= series.len()
            &&& forall|i: int| 0 <= i < window.len() ==> (#[trigger] window[i]).0 == series[i].0
        }),
{
    let units = quantity_total(series) as int;
    let floor = percentile_units_spec(MINIMUM_PRICES_PERCENTILE as int, units);
    let ceiling = percentile_units_spec(2 * MINIMUM_PRICES_PERCENTILE as int, units);
    lemma_percentile_units(
        MINIMUM_PRICES_PERCENTILE as int,
        2 * MINIMUM_PRICES_PERCENTILE as int,
        units,
    );
    let window = weighted_window(series, floor, ceiling, 0, 0);
    assert(series.take(0) =~= Seq::<(u64, u64)>::empty());
    lemma_weighted_window(series, floor, ceiling, 0, 0);
    assert forall|i: int| 0 <= i < window.len() implies exists|j: int|
        0 <= j < series.len() && (#[trigger] window[i]).0 == series[j].0 by {
        assert(window[i].0 == series[i].0);
    }
    lemma_part_within_limits(window, series);
    assert forall|i: int, j: int| 0 <= i <= j < window.len() implies window[i].0
        <= window[j].0 by {
        assert(window[i].0 == series[i].0);
        assert(window[j].0 == series[j].0);
    }
}

/// A normalized market price of a series with units is a price within the range of the prices
/// of the series.
pub proof fn lemma_normalized_price_of_sorted_in_range(series: Seq<(u64, u64)>)
    requires
        ascending_by_first(series),
        series_within_reach(series),
        quantity_total(series) > 0,
    ensures
        normalized_price_of_sorted(series) is Some,
        series.first().0 <= normalized_price_of_sorted(series)->0 <= series.last().0,
{
    if quantity_total(series) == 1 {
        lemma_unit_holder(series);
        let at = choose|i: int| 0 <= i < series.len() && (#[trigger] series[i]).1 > 0;
        lemma_single_unit_price(series, at);
        assert(series[0].0 <= series[at].0 <= series[series.len() - 1].0);
        return ;
    }
    let units = quantity_total(series) as int;
    let floor = percentile_units_spec(MINIMUM_PRICES_PERCENTILE as int, units);
    let ceiling = percentile_units_spec(2 * MINIMUM_PRICES_PERCENTILE as int, units);
    let window = weighted_window(series, floor, ceiling, 0, 0);
    lemma_window_of_sorted(series);
    assert forall|i: int| 0 <= i < window.len() implies series.first().0 <= (
    #[trigger] window[i]).0 <= series.last().0 by {
        assert(window[i].0 == series[i].0);
    }
    if quantity_total(window) < 2 {
        lemma_weighted_mean_between(window, series.first().0, series.last().0);
    } else {
        lemma_trimmed_series_has_units(window);
        let kept = trimmed_series(window);
        assert forall|i: int| 0 <= i < kept.len() implies series.first().0 <= (
        #[trigger] kept[i]).0 <= series.last().0 by {
            assert(window.contains(kept[i]));
            let j = choose|j: int| 0 <= j < window.len() && window[j] == kept[i];
            assert(series.first().0 <= window[j].0 <= series.last().0);
        }
        lemma_weighted_mean_between(kept, series.first().0, series.last().0);
    }
}

/// The normalized market price of a single unit is the price of that unit.
pub proof fn lemma_single_unit_price(series: Seq<(u64, u64)>, at: int)
    requires
        ascending_by_first(series),
        quantity_total(series) == 1,
        0 <= at < series.len(),
        series[at].1 > 0,
    ensures
        normalized_price_of_sorted(series) == Some(series[at].0),
{
    let floor = percentile_units_spec(MINIMUM_PRICES_PERCENTILE as int, 1);
    let ceiling = percentile_units_spec(2 * MINIMUM_PRICES_PERCENTILE as int, 1);
    lemma_percentile_units(
        MINIMUM_PRICES_PERCENTILE as int,
        2 * MINIMUM_PRICES_PERCENTILE as int,
        1,
    );
    let window = weighted_window(series, floor, ceiling, 0, 0);
    assert(series.take(0) =~= Seq::<(u64, u64)>::empty());
    lemma_weighted_window(series, floor, ceiling, 0, 0);
    assert(quantity_total(window) == 1);
    lemma_unit_holder(window);
    let held = choose|i: int| 0 <= i < window.len() && (#[trigger] window[i]).1 > 0;
    assert(series[held].1 > 0);
    if held != at {
        lemma_totals_remove(series, at);
        let rest = series.remove(at);
        let moved = if held < at {
            held
        } else {
            held - 1
        };
        assert(rest[moved] == series[held]);
        lemma_totals_remove(rest, moved);
    }
    lemma_totals_remove(window, held);
    lemma_empty_totals(window.remove(held));
    assert(window[held].1 == 1);
    assert(window[held].0 * 1 == window[held].0);
    assert(amount_total(window) == series[at].0);
}

} // verus!
