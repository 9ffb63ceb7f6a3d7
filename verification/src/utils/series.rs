//! Price lists and weighted price series: their sums, and the limits within which the price
//! statistics can be worked out in 128 bits.
//!
//! A series is a sequence of `(price, quantity)` pairs, each of which stands for `quantity` units
//! at `price`.

use vstd::prelude::*;

verus! {

/// The largest value that the number of units times any one price may reach, so that the squares
/// the deviation tests need fit in 128 bits.
pub const PRICE_LIMIT: u64 = 0x3fff_ffff_ffff_ffff;

/// Sum of the values.
pub open spec fn sum(values: Seq<u64>) -> nat
    decreases values.len(),
{
    if values.len() == 0 {
        0
    } else {
        sum(values.drop_last()) + values.last() as nat
    }
}

/// Sum of the squared values.
pub open spec fn square_sum(values: Seq<u64>) -> nat
    decreases values.len(),
{
    if values.len() == 0 {
        0
    } else {
        square_sum(values.drop_last()) + (values.last() as nat) * (values.last() as nat)
    }
}

/// Number of units in a series of `(price, quantity)` pairs.
pub open spec fn quantity_total(series: Seq<(u64, u64)>) -> nat
    decreases series.len(),
{
    if series.len() == 0 {
        0
    } else {
        quantity_total(series.drop_last()) + series.last().1 as nat
    }
}

/// Sum of the prices of all units of a series.
pub open spec fn amount_total(series: Seq<(u64, u64)>) -> nat
    decreases series.len(),
{
    if series.len() == 0 {
        0
    } else {
        amount_total(series.drop_last()) + (series.last().0 as nat) * (series.last().1 as nat)
    }
}

/// Sum of the squared prices of all units of a series.
pub open spec fn square_total(series: Seq<(u64, u64)>) -> nat
    decreases series.len(),
{
    if series.len() == 0 {
        0
    } else {
        square_total(series.drop_last()) + (series.last().0 as nat) * (series.last().0 as nat) * (
        series.last().1 as nat)
    }
}

/// The prices of a series, one per pair.
pub open spec fn prices_of(series: Seq<(u64, u64)>) -> Seq<u64> {
    series.map_values(|pair: (u64, u64)| pair.0)
}

/// The series that holds each price of `prices` once.
pub open spec fn units(prices: Seq<u64>) -> Seq<(u64, u64)> {
    prices.map_values(|price: u64| (price, 1u64))
}

/// A price list is within limits when its length times each price stays under `PRICE_LIMIT`.
pub open spec fn prices_within_limits(prices: Seq<u64>) -> bool {
    &&& prices.len() <= PRICE_LIMIT
    &&& forall|i: int| 0 <= i < prices.len() ==> prices.len() * #[trigger] prices[i] <= PRICE_LIMIT
}

/// A series is within limits when its number of units times each price stays under
/// `PRICE_LIMIT`.
pub open spec fn series_within_limits(series: Seq<(u64, u64)>) -> bool {
    &&& quantity_total(series) <= PRICE_LIMIT
    &&& forall|i: int|
        0 <= i < series.len() ==> quantity_total(series) * (#[trigger] series[i]).0 <= PRICE_LIMIT
}

/// A price list is within reach of the price statistics when it is within limits, or holds
/// fewer than two prices, of which nothing has to be worked out.
pub open spec fn prices_within_reach(prices: Seq<u64>) -> bool {
    prices.len() >= 2 ==> prices_within_limits(prices)
}

/// A series is within reach of the price statistics when it is within limits, or holds fewer
/// than two units, of which nothing has to be worked out.
pub open spec fn series_within_reach(series: Seq<(u64, u64)>) -> bool {
    quantity_total(series) >= 2 ==> series_within_limits(series)
}

/// Decides `prices_within_limits`.
pub fn prices_fit_limits(prices: &[u64]) -> (fit: bool)
    ensures
        fit == prices_within_limits(prices@),
{
    let count = prices.len() as u128;
    if count > PRICE_LIMIT as u128 {
        return false;
    }
    let mut i: usize = 0;
    while i < prices.len()
        invariant
            i <= prices.len(),
            count == prices.len(),
            count <= PRICE_LIMIT,
            forall|k: int| 0 <= k < i ==> prices.len() * #[trigger] prices@[k] <= PRICE_LIMIT,
        decreases prices.len() - i,
    {
        assert(count * prices@[i as int] <= u64::MAX * u64::MAX) by (nonlinear_arith)
            requires
                0 <= count <= u64::MAX,
                0 <= prices@[i as int] <= u64::MAX,
        ;
        if count * (prices[i] as u128) > PRICE_LIMIT as u128 {
            return false;
        }
        i = i + 1;
    }
    true
}

/// Counts the units of a series.
pub fn count_units(series: &[(u64, u64)]) -> (count: u128)
    ensures
        count == quantity_total(series@),
{
    let mut count: u128 = 0;
    let mut i: usize = 0;
    while i < series.len()
        invariant
            i <= series.len(),
            count == quantity_total(series@.take(i as int)),
            count <= i * u64::MAX,
        decreases series.len() - i,
    {
        proof {
            assert(series@.take(i + 1).drop_last() =~= series@.take(i as int));
            assert((i + 1) * u64::MAX == i * u64::MAX + u64::MAX) by (nonlinear_arith);
            assert((i + 1) * u64::MAX <= u64::MAX * u64::MAX) by (nonlinear_arith)
                requires
                    i + 1 <= u64::MAX,
            ;
        }
        count = count + series[i].1 as u128;
        i = i + 1;
    }
    proof {
        assert(series@.take(series.len() as int) =~= series@);
    }
    count
}

/// Decides `series_within_limits`.
pub fn series_fits_limits(series: &[(u64, u64)]) -> (fit: bool)
    ensures
        fit == series_within_limits(series@),
{
    let count = count_units(series);
    if count > PRICE_LIMIT as u128 {
        return false;
    }
    let mut i: usize = 0;
    while i < series.len()
        invariant
            i <= series.len(),
            count == quantity_total(series@),
            count <= PRICE_LIMIT,
            forall|k: int| 0 <= k < i ==> count * (#[trigger] series@[k]).0 <= PRICE_LIMIT,
        decreases series.len() - i,
    {
        assert(count * series@[i as int].0 <= u64::MAX * u64::MAX) by (nonlinear_arith)
            requires
                0 <= count <= u64::MAX,
                0 <= series@[i as int].0 <= u64::MAX,
        ;
        if count * (series[i].0 as u128) > PRICE_LIMIT as u128 {
            return false;
        }
        i = i + 1;
    }
    true
}

/// A price list and the series of its units have the same sums.
pub proof fn lemma_units_totals(prices: Seq<u64>)
    ensures
        quantity_total(units(prices)) == prices.len(),
        amount_total(units(prices)) == sum(prices),
        square_total(units(prices)) == square_sum(prices),
    decreases prices.len(),
{
    if prices.len() > 0 {
        lemma_units_totals(prices.drop_last());
        assert(units(prices).drop_last() =~= units(prices.drop_last()));
        let price = prices.last() as nat;
        assert(price * 1 == price);
        assert(price * price * 1 == price * price);
    }
}

/// A series without units has no amount.
pub proof fn lemma_empty_totals(series: Seq<(u64, u64)>)
    requires
        quantity_total(series) == 0,
    ensures
        amount_total(series) == 0,
        square_total(series) == 0,
    decreases series.len(),
{
    if series.len() > 0 {
        lemma_empty_totals(series.drop_last());
        let price = series.last().0 as nat;
        assert(price * 0 == 0);
        assert(price * price * 0 == 0);
    }
}

/// Where `scale` times each price is at most `bound`, the sums of the series are bounded by the
/// number of units.
pub proof fn lemma_totals_bounded(series: Seq<(u64, u64)>, scale: nat, bound: nat)
    requires
        forall|i: int| 0 <= i < series.len() ==> scale * (#[trigger] series[i]).0 <= bound,
    ensures
        scale * amount_total(series) <= bound * quantity_total(series),
        scale * scale * square_total(series) <= bound * bound * quantity_total(series),
    decreases series.len(),
{
    if series.len() == 0 {
        assert(scale * 0 == 0 && bound * 0 == 0);
        assert(scale * scale * 0 == 0 && bound * bound * 0 == 0);
    } else {
        let rest = series.drop_last();
        assert forall|i: int| 0 <= i < rest.len() implies scale * (#[trigger] rest[i]).0
            <= bound by {
            assert(rest[i] == series[i]);
        }
        lemma_totals_bounded(rest, scale, bound);
        let price = series.last().0 as nat;
        let quantity = series.last().1 as nat;
        let amount = amount_total(rest);
        let squares = square_total(rest);
        let count = quantity_total(rest);
        assert(scale * price <= bound);
        assert(scale * (amount + price * quantity) <= bound * (count + quantity))
            by (nonlinear_arith)
            requires
                scale * amount <= bound * count,
                scale * price <= bound,
        ;
        let scaled = scale * price;
        assert(scaled * scaled <= bound * bound) by (nonlinear_arith)
            requires
                0 <= scaled <= bound,
        ;
        assert(scale * scale * (price * price * quantity) == (scaled * scaled) * quantity)
            by (nonlinear_arith)
            requires
                scaled == scale * price,
        ;
        assert((scaled * scaled) * quantity <= (bound * bound) * quantity) by (nonlinear_arith)
            requires
                scaled * scaled <= bound * bound,
                quantity >= 0,
        ;
        assert(scale * scale * (squares + price * price * quantity) == scale * scale * squares
            + scale * scale * (price * price * quantity)) by (nonlinear_arith);
        assert(bound * bound * (count + quantity) == bound * bound * count + (bound * bound)
            * quantity) by (nonlinear_arith);
    }
}

/// Where every price lies between `lowest` and `highest`, so does the sum of the prices of all
/// units, taken per unit.
pub proof fn lemma_amount_between(series: Seq<(u64, u64)>, lowest: int, highest: int)
    requires
        forall|i: int| 0 <= i < series.len() ==> lowest <= (#[trigger] series[i]).0 <= highest,
    ensures
        lowest * quantity_total(series) <= amount_total(series) <= highest * quantity_total(series),
    decreases series.len(),
{
    if series.len() == 0 {
        assert(lowest * 0 == 0 && highest * 0 == 0);
    } else {
        let rest = series.drop_last();
        assert forall|i: int| 0 <= i < rest.len() implies lowest <= (#[trigger] rest[i]).0
            <= highest by {
            assert(rest[i] == series[i]);
        }
        lemma_amount_between(rest, lowest, highest);
        let price = series.last().0 as int;
        let quantity = series.last().1 as int;
        let units = quantity_total(rest) as int;
        assert(lowest <= series[series.len() - 1].0 <= highest);
        assert(lowest * quantity <= price * quantity <= highest * quantity) by (nonlinear_arith)
            requires
                lowest <= price <= highest,
                quantity >= 0,
        ;
        assert(lowest * (units + quantity) == lowest * units + lowest * quantity)
            by (nonlinear_arith);
        assert(highest * (units + quantity) == highest * units + highest * quantity)
            by (nonlinear_arith);
    }
}

/// Taking one pair out of a series takes its units, their prices and their squared prices out
/// of the sums.
pub proof fn lemma_totals_remove(series: Seq<(u64, u64)>, at: int)
    requires
        0 <= at < series.len(),
    ensures
        quantity_total(series) == quantity_total(series.remove(at)) + series[at].1,
        amount_total(series) == amount_total(series.remove(at)) + series[at].0 * series[at].1,
        square_total(series) == square_total(series.remove(at)) + series[at].0 * series[at].0
            * series[at].1,
    decreases series.len(),
{
    if at == series.len() - 1 {
        assert(series.remove(at) =~= series.drop_last());
    } else {
        lemma_totals_remove(series.drop_last(), at);
        assert(series.remove(at).drop_last() =~= series.drop_last().remove(at));
        assert(series.remove(at).last() == series.last());
    }
}

/// Two series of the same pairs, in whatever order, have the same sums.
pub proof fn lemma_totals_permutation(left: Seq<(u64, u64)>, right: Seq<(u64, u64)>)
    requires
        left.to_multiset() == right.to_multiset(),
    ensures
        quantity_total(left) == quantity_total(right),
        amount_total(left) == amount_total(right),
        square_total(left) == square_total(right),
    decreases left.len(),
{
    left.to_multiset_ensures();
    right.to_multiset_ensures();
    if left.len() > 0 {
        let pair = left.last();
        assert(left.contains(pair));
        assert(right.to_multiset().count(pair) > 0);
        assert(right.contains(pair));
        let at = choose|at: int| 0 <= at < right.len() && right[at] == pair;
        vstd::seq_lib::to_multiset_remove(right, at);
        vstd::seq_lib::to_multiset_remove(left, left.len() - 1);
        assert(left.remove(left.len() - 1) =~= left.drop_last());
        lemma_totals_permutation(left.drop_last(), right.remove(at));
        lemma_totals_remove(right, at);
    } else {
        assert(right =~= Seq::<(u64, u64)>::empty());
    }
}

/// A prefix of a series holds no more units than the series.
pub proof fn lemma_quantity_prefix(series: Seq<(u64, u64)>, end: int)
    requires
        0 <= end <= series.len(),
    ensures
        quantity_total(series.take(end)) <= quantity_total(series),
    decreases series.len(),
{
    if end == series.len() {
        assert(series.take(end) =~= series);
    } else {
        lemma_quantity_prefix(series.drop_last(), end);
        assert(series.drop_last().take(end) =~= series.take(end));
    }
}

/// The units of a series are those before an index and those from it on.
pub proof fn lemma_quantity_split(series: Seq<(u64, u64)>, at: int)
    requires
        0 <= at <= series.len(),
    ensures
        quantity_total(series) == quantity_total(series.take(at)) + quantity_total(
            series.skip(at),
        ),
    decreases series.len(),
{
    if at == series.len() {
        assert(series.take(at) =~= series);
        assert(series.skip(at) =~= Seq::<(u64, u64)>::empty());
    } else {
        lemma_quantity_split(series.drop_last(), at);
        assert(series.drop_last().take(at) =~= series.take(at));
        assert(series.drop_last().skip(at) =~= series.skip(at).drop_last());
    }
}

/// A part of a series holds no more units than the series.
pub proof fn lemma_quantity_subrange(series: Seq<(u64, u64)>, start: int, end: int)
    requires
        0 <= start <= end <= series.len(),
    ensures
        quantity_total(series.subrange(start, end)) <= quantity_total(series),
    decreases end - start,
{
    if start == end {
        assert(series.subrange(start, end) =~= Seq::<(u64, u64)>::empty());
    } else {
        lemma_quantity_subrange(series, start, end - 1);
        assert(series.subrange(start, end).drop_last() =~= series.subrange(start, end - 1));
        lemma_quantity_prefix(series, end);
        lemma_quantity_prefix(series, end - 1);
        assert(series.take(end).drop_last() =~= series.take(end - 1));
        lemma_quantity_split(series.take(end), start);
        lemma_quantity_split(series.take(end - 1), start);
        assert(series.take(end).take(start) =~= series.take(end - 1).take(start));
        assert(series.take(end).skip(start) =~= series.subrange(start, end));
        assert(series.take(end - 1).skip(start) =~= series.subrange(start, end - 1));
    }
}

/// A series that holds some of the prices of a series within limits, and no more units than it,
/// is within limits too.
pub proof fn lemma_part_within_limits(part: Seq<(u64, u64)>, series: Seq<(u64, u64)>)
    requires
        series_within_limits(series),
        quantity_total(part) <= quantity_total(series),
        forall|i: int|
            0 <= i < part.len() ==> exists|j: int|
                0 <= j < series.len() && (#[trigger] part[i]).0 == series[j].0,
    ensures
        series_within_limits(part),
{
    let count = quantity_total(series);
    let fewer = quantity_total(part);
    assert forall|i: int| 0 <= i < part.len() implies fewer * (#[trigger] part[i]).0
        <= PRICE_LIMIT by {
        let j = choose|j: int| 0 <= j < series.len() && part[i].0 == series[j].0;
        let price = series[j].0;
        assert(count * price <= PRICE_LIMIT);
        assert(fewer * price <= count * price) by (nonlinear_arith)
            requires
                fewer <= count,
                price >= 0,
        ;
    }
}

/// A prefix of a series within limits is within limits.
pub proof fn lemma_prefix_within_limits(series: Seq<(u64, u64)>, end: int)
    requires
        series_within_limits(series),
        0 <= end <= series.len(),
    ensures
        series_within_limits(series.take(end)),
{
    lemma_quantity_prefix(series, end);
    let part = series.take(end);
    assert forall|i: int| 0 <= i < part.len() implies exists|j: int|
        0 <= j < series.len() && (#[trigger] part[i]).0 == series[j].0 by {
        assert(part[i].0 == series[i].0);
    }
    lemma_part_within_limits(part, series);
}

/// A part of a series within limits is within limits.
pub proof fn lemma_subrange_within_limits(series: Seq<(u64, u64)>, start: int, end: int)
    requires
        series_within_limits(series),
        0 <= start <= end <= series.len(),
    ensures
        series_within_limits(series.subrange(start, end)),
{
    lemma_quantity_subrange(series, start, end);
    let part = series.subrange(start, end);
    assert forall|i: int| 0 <= i < part.len() implies exists|j: int|
        0 <= j < series.len() && (#[trigger] part[i]).0 == series[j].0 by {
        assert(part[i].0 == series[start + i].0);
    }
    lemma_part_within_limits(part, series);
}

/// A price list that holds some of the prices of a list within limits, and is no longer than it,
/// is within limits too.
pub proof fn lemma_prices_part_within_limits(part: Seq<u64>, prices: Seq<u64>)
    requires
        prices_within_limits(prices),
        part.len() <= prices.len(),
        forall|i: int| 0 <= i < part.len() ==> prices.contains(#[trigger] part[i]),
    ensures
        prices_within_limits(part),
{
    assert forall|i: int| 0 <= i < part.len() implies part.len() * (#[trigger] part[i])
        <= PRICE_LIMIT by {
        let price = part[i];
        let j = choose|j: int| 0 <= j < prices.len() && prices[j] == price;
        assert(prices.len() * prices[j] <= PRICE_LIMIT);
        assert(part.len() * price <= prices.len() * price) by (nonlinear_arith)
            requires
                part.len() <= prices.len(),
                price >= 0,
        ;
    }
}

/// The units of a price list within limits make a series within limits.
pub proof fn lemma_units_within_limits(prices: Seq<u64>)
    requires
        prices_within_limits(prices),
    ensures
        series_within_limits(units(prices)),
        prices_of(units(prices)) == prices,
{
    lemma_units_totals(prices);
    assert forall|i: int| 0 <= i < units(prices).len() implies quantity_total(units(prices)) * (
    #[trigger] units(prices)[i]).0 <= PRICE_LIMIT by {
        assert(units(prices)[i].0 == prices[i]);
    }
    assert(prices_of(units(prices)) =~= prices);
}

/// A series with units has a pair with units.
pub proof fn lemma_unit_holder(series: Seq<(u64, u64)>)
    requires
        quantity_total(series) > 0,
    ensures
        exists|i: int| 0 <= i < series.len() && (#[trigger] series[i]).1 > 0,
    decreases series.len(),
{
    if series.last().1 > 0 {
        assert(series[series.len() - 1].1 > 0);
    } else {
        lemma_unit_holder(series.drop_last());
        let i = choose|i: int|
            0 <= i < series.drop_last().len() && (#[trigger] series.drop_last()[i]).1 > 0;
        assert(series[i] == series.drop_last()[i]);
    }
}

/// Decides `prices_within_reach`.
pub fn prices_are_within_reach(prices: &[u64]) -> (within: bool)
    ensures
        within == prices_within_reach(prices@),
{
    prices.len() < 2 || prices_fit_limits(prices)
}

/// Decides `series_within_reach`.
pub fn series_is_within_reach(series: &[(u64, u64)]) -> (within: bool)
    ensures
        within == series_within_reach(series@),
{
    count_units(series) < 2 || series_fits_limits(series)
}

} // verus!
