//! Count, sum and sum of squares of priced units, and the exact tests that decide whether a
//! price lies more than one and a half standard deviations away from the mean.
//!
//! Everything here is integer arithmetic. With `n` the number of units, `s` the sum of their
//! prices and `q` the sum of their squared prices, the mean is `s / n` and the population
//! variance is `(n * q - s * s) / (n * n)`, so `price < mean - 1.5 * deviation` is the same as
//! `n * price < s` together with `4 * (s - n * price)^2 > 9 * (n * q - s * s)`.

use crate::utils::series::{
    amount_total, lemma_empty_totals, lemma_prefix_within_limits,
    lemma_prices_part_within_limits, lemma_totals_bounded, lemma_totals_permutation,
    lemma_units_totals,
    lemma_units_within_limits, prices_within_limits, quantity_total, series_within_limits,
    square_sum, square_total, sum, units, PRICE_LIMIT,
};
use vstd::arithmetic::div_mod::{lemma_fundamental_div_mod, lemma_fundamental_div_mod_converse};
use vstd::prelude::*;

verus! {

/// Count, sum and sum of squares of a collection of priced units.
#[derive(Clone, Copy, Debug)]
pub struct Moments {
    /// Number of units.
    pub count: u128,
    /// Sum of the units' prices.
    pub total: u128,
    /// Sum of the units' squared prices.
    pub squares: u128,
}

impl Moments {
    /// The moments of a flat price list.
    pub open spec fn of_prices(prices: Seq<u64>) -> Moments {
        Moments {
            count: prices.len() as u128,
            total: sum(prices) as u128,
            squares: square_sum(prices) as u128,
        }
    }

    /// The moments of a weighted series.
    pub open spec fn of_series(series: Seq<(u64, u64)>) -> Moments {
        Moments {
            count: quantity_total(series) as u128,
            total: amount_total(series) as u128,
            squares: square_total(series) as u128,
        }
    }

    /// The population variance times the squared count.
    pub open spec fn spread(self) -> int {
        self.count * self.squares - self.total * self.total
    }

    /// Whether `price` is more than one and a half population standard deviations under the mean:
    /// whether it is under the mean, and four times the square of its distance from the mean is
    /// more than nine times the variance.
    pub open spec fn below(self, price: u64) -> bool {
        let gap = self.total - self.count * price;
        gap > 0 && 4 * (gap * gap) > 9 * self.spread()
    }

    /// Whether `price` is more than one and a half population standard deviations over the mean:
    /// whether it is over the mean, and four times the square of its distance from the mean is
    /// more than nine times the variance.
    pub open spec fn above(self, price: u64) -> bool {
        let gap = self.count * price - self.total;
        gap > 0 && 4 * (gap * gap) > 9 * self.spread()
    }

    /// The sums are small enough for the deviation tests, and the spread is not negative.
    pub open spec fn bounded(self) -> bool {
        &&& self.count <= PRICE_LIMIT
        &&& self.total <= PRICE_LIMIT
        &&& self.total * self.total <= self.count * self.squares
        &&& self.count * self.squares <= PRICE_LIMIT * PRICE_LIMIT
    }

    /// Computes the moments of a price list.
    pub fn from_prices(prices: &[u64]) -> (moments: Moments)
        requires
            prices_within_limits(prices@),
        ensures
            moments == Moments::of_prices(prices@),
            moments.bounded(),
            moments.count == prices.len(),
            moments.total == sum(prices@),
            moments.squares == square_sum(prices@),
    {
        let mut total: u128 = 0;
        let mut squares: u128 = 0;
        let mut i: usize = 0;
        assert(PRICE_LIMIT * PRICE_LIMIT < 0x1000_0000_0000_0000_0000_0000_0000_0000u128);
        while i < prices.len()
            invariant
                i <= prices.len(),
                prices_within_limits(prices@),
                total == sum(prices@.take(i as int)),
                squares == square_sum(prices@.take(i as int)),
            decreases prices.len() - i,
        {
            let price: u128 = prices[i] as u128;
            proof {
                let next = prices@.take(i + 1);
                assert(next.drop_last() =~= prices@.take(i as int));
                assert forall|k: int| 0 <= k < next.len() implies prices@.contains(
                    #[trigger] next[k],
                ) by {
                    assert(prices@[k] == next[k]);
                }
                lemma_prices_part_within_limits(next, prices@);
                lemma_prices_moments_bounded(next);
                assert(price * price <= u64::MAX * u64::MAX) by (nonlinear_arith)
                    requires
                        0 <= price <= u64::MAX,
                ;
            }
            total = total + price;
            squares = squares + price * price;
            i = i + 1;
        }
        proof {
            assert(prices@.take(prices.len() as int) =~= prices@);
            lemma_prices_moments_bounded(prices@);
        }
        Moments { count: prices.len() as u128, total, squares }
    }

    /// Computes the moments of a weighted series.
    pub fn from_series(series: &[(u64, u64)]) -> (moments: Moments)
        requires
            series_within_limits(series@),
        ensures
            moments == Moments::of_series(series@),
            moments.bounded(),
            moments.count == quantity_total(series@),
            moments.total == amount_total(series@),
            moments.squares == square_total(series@),
    {
        let mut count: u128 = 0;
        let mut total: u128 = 0;
        let mut squares: u128 = 0;
        let mut i: usize = 0;
        assert(PRICE_LIMIT * PRICE_LIMIT < 0x1000_0000_0000_0000_0000_0000_0000_0000u128);
        while i < series.len()
            invariant
                i <= series.len(),
                series_within_limits(series@),
                count == quantity_total(series@.take(i as int)),
                total == amount_total(series@.take(i as int)),
                squares == square_total(series@.take(i as int)),
            decreases series.len() - i,
        {
            let price: u128 = series[i].0 as u128;
            let quantity: u128 = series[i].1 as u128;
            proof {
                let next = series@.take(i + 1);
                assert(next.drop_last() =~= series@.take(i as int));
                lemma_prefix_within_limits(series@, i + 1);
                lemma_series_moments_bounded(next);
                assert(price * price <= u64::MAX * u64::MAX) by (nonlinear_arith)
                    requires
                        0 <= price <= u64::MAX,
                ;
                assert(price * quantity <= u64::MAX * u64::MAX) by (nonlinear_arith)
                    requires
                        0 <= price <= u64::MAX,
                        0 <= quantity <= u64::MAX,
                ;
            }
            count = count + quantity;
            total = total + price * quantity;
            squares = squares + price * price * quantity;
            i = i + 1;
        }
        proof {
            assert(series@.take(series.len() as int) =~= series@);
            lemma_series_moments_bounded(series@);
        }
        Moments { count, total, squares }
    }

    /// The spread, computed.
    pub fn spread_value(&self) -> (spread: u128)
        requires
            self.bounded(),
        ensures
            spread == self.spread(),
            spread <= PRICE_LIMIT * PRICE_LIMIT,
    {
        assert(self.total * self.total <= PRICE_LIMIT * PRICE_LIMIT) by (nonlinear_arith)
            requires
                self.total <= PRICE_LIMIT,
        ;
        assert(PRICE_LIMIT * PRICE_LIMIT < 0x1000_0000_0000_0000_0000_0000_0000_0000u128);
        self.count * self.squares - self.total * self.total
    }

    /// Decides `below`.
    pub fn is_below(&self, price: u64) -> (low: bool)
        requires
            self.bounded(),
            self.count * price <= PRICE_LIMIT,
        ensures
            low == self.below(price),
    {
        let scaled: u128 = self.count * (price as u128);
        if scaled >= self.total {
            false
        } else {
            let gap: u128 = self.total - scaled;
            let spread = self.spread_value();
            assert(gap * gap <= PRICE_LIMIT * PRICE_LIMIT) by (nonlinear_arith)
                requires
                    gap <= PRICE_LIMIT,
            ;
            assert(PRICE_LIMIT * PRICE_LIMIT < 0x1000_0000_0000_0000_0000_0000_0000_0000u128);
            4 * (gap * gap) > 9 * spread
        }
    }

    /// Decides `above`.
    pub fn is_above(&self, price: u64) -> (high: bool)
        requires
            self.bounded(),
            self.count * price <= PRICE_LIMIT,
        ensures
            high == self.above(price),
    {
        let scaled: u128 = self.count * (price as u128);
        if scaled <= self.total {
            false
        } else {
            let gap: u128 = scaled - self.total;
            let spread = self.spread_value();
            assert(gap * gap <= PRICE_LIMIT * PRICE_LIMIT) by (nonlinear_arith)
                requires
                    gap <= PRICE_LIMIT,
            ;
            assert(PRICE_LIMIT * PRICE_LIMIT < 0x1000_0000_0000_0000_0000_0000_0000_0000u128);
            4 * (gap * gap) > 9 * spread
        }
    }
}

/// `total` divided by `count`, rounded to the nearest integer, halves away from zero; 0 where
/// there is nothing to divide by.
pub open spec fn rounded_div(total: int, count: int) -> int {
    if count <= 0 {
        0
    } else {
        (2 * total + count) / (2 * count)
    }
}

/// Computes `rounded_div`.
pub fn rounded_division(total: u128, count: u128) -> (mean: u128)
    requires
        count > 0,
    ensures
        mean == rounded_div(total as int, count as int),
        mean <= total,
{
    let quotient = total / count;
    let rest = total % count;
    proof {
        lemma_fundamental_div_mod(total as int, count as int);
        assert(count * quotient >= quotient) by (nonlinear_arith)
            requires
                count >= 1,
                quotient >= 0,
        ;
        assert(2 * count * quotient == 2 * (count * quotient)) by (nonlinear_arith);
        assert((quotient + 1) * (2 * count) == 2 * (count * quotient) + 2 * count)
            by (nonlinear_arith);
        assert(quotient * (2 * count) == 2 * (count * quotient)) by (nonlinear_arith);
        if rest >= count - rest {
            lemma_fundamental_div_mod_converse(
                2 * total + count,
                2 * count,
                quotient + 1,
                2 * rest - count,
            );
        } else {
            lemma_fundamental_div_mod_converse(
                2 * total + count,
                2 * count,
                quotient as int,
                2 * rest + count,
            );
        }
    }
    if rest >= count - rest {
        quotient + 1
    } else {
        quotient
    }
}

/// A rounded mean lies between the bounds of what it is the mean of.
pub proof fn lemma_rounded_div_between(total: int, count: int, lowest: int, highest: int)
    requires
        count > 0,
        lowest * count <= total <= highest * count,
    ensures
        lowest <= rounded_div(total, count) <= highest,
{
    let mean = (2 * total + count) / (2 * count);
    assert(lowest <= mean) by (nonlinear_arith)
        requires
            mean == (2 * total + count) / (2 * count),
            count > 0,
            lowest * count <= total,
    ;
    assert(mean <= highest) by (nonlinear_arith)
        requires
            mean == (2 * total + count) / (2 * count),
            count > 0,
            total <= highest * count,
    ;
}

/// The sum of the squared distances of all units from `center` is not negative.
proof fn lemma_shifted_squares(series: Seq<(u64, u64)>, center: int)
    ensures
        square_total(series) - 2 * center * amount_total(series) + center * center
            * quantity_total(series) >= 0,
    decreases series.len(),
{
    if series.len() == 0 {
        assert(2 * center * 0 == 0);
        assert(center * center * 0 == 0);
    } else {
        let rest = series.drop_last();
        lemma_shifted_squares(rest, center);
        let price = series.last().0 as int;
        let quantity = series.last().1 as int;
        let amount = amount_total(rest) as int;
        let squares = square_total(rest) as int;
        let count = quantity_total(rest) as int;
        let gap = price - center;
        let unit = price * quantity;
        assert(gap * gap >= 0) by (nonlinear_arith);
        assert((gap * gap) * quantity >= 0) by (nonlinear_arith)
            requires
                gap * gap >= 0,
                quantity >= 0,
        ;
        assert(gap * gap == price * price - 2 * center * price + center * center)
            by (nonlinear_arith)
            requires
                gap == price - center,
        ;
        assert((gap * gap) * quantity == price * price * quantity - 2 * center * unit + center
            * center * quantity) by (nonlinear_arith)
            requires
                gap * gap == price * price - 2 * center * price + center * center,
                unit == price * quantity,
        ;
        assert(2 * center * (amount + unit) == 2 * center * amount + 2 * center * unit)
            by (nonlinear_arith);
        assert(center * center * (count + quantity) == center * center * count + center * center
            * quantity) by (nonlinear_arith);
    }
}

/// The squared sum of prices is at most the number of units times the sum of squared prices, so
/// the spread is never negative.
pub proof fn lemma_spread_not_negative(series: Seq<(u64, u64)>)
    ensures
        amount_total(series) * amount_total(series) <= quantity_total(series) * square_total(
            series,
        ),
    decreases series.len(),
{
    if series.len() == 0 {
    } else {
        let rest = series.drop_last();
        lemma_spread_not_negative(rest);
        let price = series.last().0 as int;
        let quantity = series.last().1 as int;
        let amount = amount_total(rest) as int;
        let squares = square_total(rest) as int;
        let count = quantity_total(rest) as int;
        lemma_shifted_squares(rest, price);
        let unit = price * quantity;
        let weight = price * price * quantity;
        let slack = squares - 2 * price * amount + price * price * count;
        assert((count + quantity) * (squares + weight) == count * squares + count * weight
            + quantity * squares + quantity * weight) by (nonlinear_arith);
        assert((amount + unit) * (amount + unit) == amount * amount + 2 * (amount * unit) + unit
            * unit) by (nonlinear_arith);
        assert(quantity * weight == unit * unit) by (nonlinear_arith)
            requires
                unit == price * quantity,
                weight == price * price * quantity,
        ;
        assert(count * weight == quantity * (price * price * count)) by (nonlinear_arith)
            requires
                weight == price * price * quantity,
        ;
        assert(amount * unit == quantity * (price * amount)) by (nonlinear_arith)
            requires
                unit == price * quantity,
        ;
        assert(quantity * slack == quantity * squares - 2 * (quantity * (price * amount))
            + quantity * (price * price * count)) by (nonlinear_arith)
            requires
                slack == squares - 2 * price * amount + price * price * count,
        ;
        assert(quantity * slack >= 0) by (nonlinear_arith)
            requires
                quantity >= 0,
                slack >= 0,
        ;
    }
}

/// The sums of a series within limits make bounded moments.
pub proof fn lemma_series_moments_bounded(series: Seq<(u64, u64)>)
    requires
        series_within_limits(series),
    ensures
        amount_total(series) <= PRICE_LIMIT,
        square_total(series) <= PRICE_LIMIT * PRICE_LIMIT,
        quantity_total(series) * square_total(series) <= PRICE_LIMIT * PRICE_LIMIT,
        Moments::of_series(series).bounded(),
{
    let count = quantity_total(series);
    let amount = amount_total(series);
    let squares = square_total(series);
    let bound = PRICE_LIMIT as nat;
    lemma_spread_not_negative(series);
    if count == 0 {
        lemma_empty_totals(series);
        assert(count * squares == 0);
    } else {
        lemma_totals_bounded(series, count, bound);
        assert(amount <= bound) by (nonlinear_arith)
            requires
                count * amount <= bound * count,
                count > 0,
        ;
        assert(count * squares <= bound * bound) by (nonlinear_arith)
            requires
                count * count * squares <= bound * bound * count,
                count > 0,
        ;
        assert(squares <= count * squares) by (nonlinear_arith)
            requires
                count > 0,
        ;
    }
    assert(PRICE_LIMIT * PRICE_LIMIT < 0x1000_0000_0000_0000_0000_0000_0000_0000u128);
}

/// The sums of a price list within limits make bounded moments.
pub proof fn lemma_prices_moments_bounded(prices: Seq<u64>)
    requires
        prices_within_limits(prices),
    ensures
        sum(prices) <= PRICE_LIMIT,
        square_sum(prices) <= PRICE_LIMIT * PRICE_LIMIT,
        Moments::of_prices(prices).bounded(),
{
    lemma_units_totals(prices);
    lemma_units_within_limits(prices);
    lemma_series_moments_bounded(units(prices));
}

/// Two series of the same pairs, in whatever order, have the same moments.
pub proof fn lemma_moments_permutation(left: Seq<(u64, u64)>, right: Seq<(u64, u64)>)
    requires
        left.to_multiset() == right.to_multiset(),
    ensures
        Moments::of_series(left) == Moments::of_series(right),
{
    lemma_totals_permutation(left, right);
}

/// A price list and the series of its units have the same moments.
pub proof fn lemma_units_moments(prices: Seq<u64>)
    ensures
        Moments::of_series(units(prices)) == Moments::of_prices(prices),
{
    lemma_units_totals(prices);
}

/// A price under one that lies too far under the mean lies too far under it as well, and a price
/// over one that lies too far over the mean lies too far over it as well. No price does both.
pub proof fn lemma_bands_ordered(moments: Moments, lower: u64, higher: u64)
    requires
        lower <= higher,
    ensures
        moments.below(higher) ==> moments.below(lower),
        moments.above(lower) ==> moments.above(higher),
        !(moments.below(lower) && moments.above(lower)),
{
    let count = moments.count as int;
    let total = moments.total as int;
    assert(count * lower <= count * higher) by (nonlinear_arith)
        requires
            lower <= higher,
            count >= 0,
    ;
    if moments.below(higher) {
        let near = total - count * higher;
        let far = total - count * lower;
        assert(far * far >= near * near) by (nonlinear_arith)
            requires
                0 < near <= far,
        ;
    }
    if moments.above(lower) {
        let near = count * lower - total;
        let far = count * higher - total;
        assert(far * far >= near * near) by (nonlinear_arith)
            requires
                0 < near <= far,
        ;
    }
}

/// The sum, over all units, of the squared distance of `count` times the unit's price from
/// `total`.
pub open spec fn gap_squares(series: Seq<(u64, u64)>, count: int, total: int) -> int
    decreases series.len(),
{
    if series.len() == 0 {
        0
    } else {
        gap_squares(series.drop_last(), count, total) + series.last().1 * ((total - count
            * series.last().0) * (total - count * series.last().0))
    }
}

/// `gap_squares`, multiplied out.
proof fn lemma_gap_squares(series: Seq<(u64, u64)>, count: int, total: int)
    ensures
        gap_squares(series, count, total) == quantity_total(series) * (total * total) - 2 * (count
            * total) * amount_total(series) + (count * count) * square_total(series),
    decreases series.len(),
{
    if series.len() == 0 {
        assert(0 * (total * total) == 0);
        assert(2 * (count * total) * 0 == 0);
        assert((count * count) * 0 == 0);
    } else {
        let rest = series.drop_last();
        lemma_gap_squares(rest, count, total);
        let price = series.last().0 as int;
        let quantity = series.last().1 as int;
        let gap = total - count * price;
        let units = quantity_total(rest) as int;
        let amount = amount_total(rest) as int;
        let squares = square_total(rest) as int;
        let unit = price * quantity;
        let weight = price * price * quantity;
        lemma_square_of_gap(total, count, price);
        lemma_weighted_terms(
            quantity,
            total * total,
            count * total,
            count * count,
            price,
            price * price,
        );
        lemma_sum_of_terms(
            units,
            quantity,
            amount,
            unit,
            squares,
            weight,
            total * total,
            count * total,
            count * count,
        );
    }
}

/// The square of a difference, multiplied out.
proof fn lemma_square_of_gap(total: int, count: int, price: int)
    ensures
        (total - count * price) * (total - count * price) == total * total - 2 * (count * total)
            * price + (count * count) * (price * price),
{
    let scaled = count * price;
    assert((total - scaled) * (total - scaled) == total * total - 2 * (total * scaled) + scaled
        * scaled) by (nonlinear_arith);
    assert(total * scaled == (count * total) * price) by (nonlinear_arith)
        requires
            scaled == count * price,
    ;
    assert(scaled * scaled == (count * count) * (price * price)) by (nonlinear_arith)
        requires
            scaled == count * price,
    ;
    assert(2 * (count * total) * price == 2 * ((count * total) * price)) by (nonlinear_arith);
}

/// A sum of three terms, multiplied by a quantity.
proof fn lemma_weighted_terms(
    quantity: int,
    first: int,
    second: int,
    third: int,
    price: int,
    square: int,
)
    ensures
        quantity * (first - 2 * second * price + third * square) == quantity * first - 2 * second
            * (price * quantity) + third * (square * quantity),
{
    let middle = second * price;
    let last = third * square;
    assert(quantity * (first - 2 * middle + last) == quantity * first - 2 * (quantity * middle)
        + quantity * last) by (nonlinear_arith);
    assert(quantity * middle == second * (price * quantity)) by (nonlinear_arith)
        requires
            middle == second * price,
    ;
    assert(quantity * last == third * (square * quantity)) by (nonlinear_arith)
        requires
            last == third * square,
    ;
    assert(2 * second * price == 2 * middle) by (nonlinear_arith)
        requires
            middle == second * price,
    ;
    assert(2 * second * (price * quantity) == 2 * (second * (price * quantity)))
        by (nonlinear_arith);
}

/// Three sums, each with one more term, multiplied by three factors.
proof fn lemma_sum_of_terms(
    units: int,
    quantity: int,
    amount: int,
    unit: int,
    squares: int,
    weight: int,
    first: int,
    second: int,
    third: int,
)
    ensures
        (units + quantity) * first - 2 * second * (amount + unit) + third * (squares + weight) == (
        units * first - 2 * second * amount + third * squares) + (quantity * first - 2 * second
            * unit + third * weight),
{
    assert((units + quantity) * first == units * first + quantity * first) by (nonlinear_arith);
    assert(2 * second * (amount + unit) == 2 * second * amount + 2 * second * unit)
        by (nonlinear_arith);
    assert(third * (squares + weight) == third * squares + third * weight) by (nonlinear_arith);
}

/// Where four times the squared distance of every unit is at least `bound`, four times their sum
/// is at least `bound` times their number.
proof fn lemma_gap_squares_scaled(series: Seq<(u64, u64)>, count: int, total: int, bound: int)
    requires
        forall|i: int|
            0 <= i < series.len() && (#[trigger] series[i]).1 > 0 ==> 4 * ((total - count
                * series[i].0) * (total - count * series[i].0)) >= bound,
    ensures
        4 * gap_squares(series, count, total) >= bound * quantity_total(series),
    decreases series.len(),
{
    if series.len() == 0 {
        assert(bound * 0 == 0);
    } else {
        let rest = series.drop_last();
        assert forall|i: int| 0 <= i < rest.len() && (#[trigger] rest[i]).1 > 0 implies 4 * ((total
            - count * rest[i].0) * (total - count * rest[i].0)) >= bound by {
            assert(rest[i] == series[i]);
        }
        lemma_gap_squares_scaled(rest, count, total, bound);
        let quantity = series.last().1 as int;
        let gap = total - count * series.last().0;
        let units = quantity_total(rest) as int;
        if quantity > 0 {
            assert(series[series.len() - 1].1 > 0);
            assert(4 * (quantity * (gap * gap)) >= bound * quantity) by (nonlinear_arith)
                requires
                    quantity > 0,
                    4 * (gap * gap) >= bound,
            ;
        } else {
            assert(quantity * (gap * gap) == 0) by (nonlinear_arith)
                requires
                    quantity == 0,
            ;
            assert(bound * quantity == 0) by (nonlinear_arith)
                requires
                    quantity == 0,
            ;
        }
        assert(bound * (units + quantity) == bound * units + bound * quantity)
            by (nonlinear_arith);
    }
}

/// Among units there is always one whose price lies neither too far under nor too far over their
/// mean.
pub proof fn lemma_some_within_bands(series: Seq<(u64, u64)>)
    requires
        series_within_limits(series),
        quantity_total(series) > 0,
    ensures
        exists|i: int|
            0 <= i < series.len() && (#[trigger] series[i]).1 > 0 && !Moments::of_series(
                series,
            ).below(series[i].0) && !Moments::of_series(series).above(series[i].0),
{
    let moments = Moments::of_series(series);
    lemma_series_moments_bounded(series);
    let count = quantity_total(series) as int;
    let total = amount_total(series) as int;
    let squares = square_total(series) as int;
    let spread = moments.spread();
    assert(spread == count * squares - total * total);
    assert(spread >= 0);
    if forall|i: int|
        0 <= i < series.len() && (#[trigger] series[i]).1 > 0 ==> moments.below(series[i].0)
            || moments.above(series[i].0) {
        assert forall|i: int| 0 <= i < series.len() && (#[trigger] series[i]).1 > 0 implies 4 * ((
        total - count * series[i].0) * (total - count * series[i].0)) >= 9 * spread + 1 by {
            let gap = total - count * series[i].0;
            assert(moments.below(series[i].0) || moments.above(series[i].0));
            assert((0 - gap) * (0 - gap) == gap * gap) by (nonlinear_arith);
        }
        lemma_gap_squares_scaled(series, count, total, 9 * spread + 1);
        lemma_gap_squares(series, count, total);
        let sum = gap_squares(series, count, total);
        assert(sum == count * spread) by (nonlinear_arith)
            requires
                sum == count * (total * total) - 2 * (count * total) * total + (count * count)
                    * squares,
                spread == count * squares - total * total,
        ;
        assert(4 * (count * spread) < (9 * spread + 1) * count) by (nonlinear_arith)
            requires
                count > 0,
                spread >= 0,
        ;
        assert(false);
    }
}

} // verus!
