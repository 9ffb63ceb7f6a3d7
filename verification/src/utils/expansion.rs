//! A series unfolded into the prices of its units, and how the statistics of the series are
//! those of its units.

use crate::utils::series::{
    amount_total, lemma_quantity_prefix, prices_within_limits, quantity_total,
    series_within_limits, square_sum, square_total, sum, PRICE_LIMIT,
};
use crate::utils::sorting::{ascending, ascending_by_first};
use vstd::prelude::*;

verus! {

/// The prices of the units of a series, one for each unit, in the order of the series.
pub open spec fn expanded(series: Seq<(u64, u64)>) -> Seq<u64>
    decreases series.len(),
{
    if series.len() == 0 {
        Seq::empty()
    } else {
        expanded(series.drop_last()) + Seq::new(
            series.last().1 as nat,
            |i: int| series.last().0,
        )
    }
}

/// The number of units in the pairs before the pair at `index`.
pub open spec fn units_before(series: Seq<(u64, u64)>, index: int) -> nat {
    quantity_total(series.take(index))
}

/// The sums of a price list that ends in `count` times the same price.
proof fn lemma_sums_of_run(prices: Seq<u64>, price: u64, count: nat)
    ensures
        sum(prices + Seq::new(count, |i: int| price)) == sum(prices) + price * count,
        square_sum(prices + Seq::new(count, |i: int| price)) == square_sum(prices) + price * price
            * count,
    decreases count,
{
    let run = Seq::new(count, |i: int| price);
    if count == 0 {
        assert(prices + run =~= prices);
        assert(price * 0 == 0);
        assert(price * price * 0 == 0);
    } else {
        let shorter = Seq::new((count - 1) as nat, |i: int| price);
        lemma_sums_of_run(prices, price, (count - 1) as nat);
        assert((prices + run).drop_last() =~= prices + shorter);
        assert((prices + run).last() == price);
        assert(price * count == price * (count - 1) + price) by (nonlinear_arith);
        assert(price * price * count == price * price * (count - 1) + price * price)
            by (nonlinear_arith);
    }
}

/// The units of a series are as many as the series counts, and their sums are those of the
/// series.
pub proof fn lemma_expanded_totals(series: Seq<(u64, u64)>)
    ensures
        expanded(series).len() == quantity_total(series),
        sum(expanded(series)) == amount_total(series),
        square_sum(expanded(series)) == square_total(series),
    decreases series.len(),
{
    if series.len() > 0 {
        lemma_expanded_totals(series.drop_last());
        lemma_sums_of_run(
            expanded(series.drop_last()),
            series.last().0,
            series.last().1 as nat,
        );
    }
}

/// The units of the leading pairs of a series are the leading units of the series.
pub proof fn lemma_expanded_prefix(series: Seq<(u64, u64)>, index: int)
    requires
        0 <= index <= series.len(),
    ensures
        units_before(series, index) <= quantity_total(series),
        expanded(series.take(index)) == expanded(series).take(units_before(series, index) as int),
    decreases series.len(),
{
    lemma_quantity_prefix(series, index);
    lemma_expanded_totals(series);
    if index == series.len() {
        assert(series.take(index) =~= series);
        assert(expanded(series).take(expanded(series).len() as int) =~= expanded(series));
    } else {
        let rest = series.drop_last();
        lemma_expanded_prefix(rest, index);
        lemma_expanded_totals(rest);
        assert(rest.take(index) =~= series.take(index));
        assert(expanded(series).take(units_before(series, index) as int) =~= expanded(rest).take(
            units_before(series, index) as int,
        ));
    }
}

/// The units of a pair stand, in the unfolded series, after the units of the pairs before it,
/// and have its price.
pub proof fn lemma_expanded_index(series: Seq<(u64, u64)>, index: int, offset: int)
    requires
        0 <= index < series.len(),
        0 <= offset < series[index].1,
    ensures
        units_before(series, index) + offset < expanded(series).len(),
        expanded(series)[units_before(series, index) + offset] == series[index].0,
{
    lemma_expanded_totals(series);
    lemma_expanded_prefix(series, index);
    lemma_expanded_prefix(series, index + 1);
    lemma_expanded_totals(series.take(index));
    lemma_expanded_totals(series.take(index + 1));
    let upto = series.take(index + 1);
    assert(upto.drop_last() =~= series.take(index));
    assert(upto.last() == series[index]);
    let at = units_before(series, index) + offset;
    assert(units_before(series, index + 1) == units_before(series, index) + series[index].1);
    assert(expanded(upto).len() == units_before(series, index + 1));
    assert(expanded(upto)[at] == series[index].0);
    assert(expanded(upto) == expanded(series).take(units_before(series, index + 1) as int));
    assert(expanded(upto)[at] == expanded(series)[at]);
}

/// Every unit of the unfolded series has the price of a pair of the series that has units.
pub proof fn lemma_expanded_member(series: Seq<(u64, u64)>, at: int)
    requires
        0 <= at < expanded(series).len(),
    ensures
        exists|index: int|
            0 <= index < series.len() && (#[trigger] series[index]).1 > 0 && series[index].0
                == expanded(series)[at],
    decreases series.len(),
{
    if series.len() > 0 {
        let rest = series.drop_last();
        if at < expanded(rest).len() {
            lemma_expanded_member(rest, at);
            let index = choose|index: int|
                0 <= index < rest.len() && (#[trigger] rest[index]).1 > 0 && rest[index].0
                    == expanded(rest)[at];
            assert(series[index] == rest[index]);
        } else {
            assert(series[series.len() - 1].1 > 0);
        }
    }
}

/// The units of a series that ascends by price ascend.
pub proof fn lemma_expanded_ascending(series: Seq<(u64, u64)>)
    requires
        ascending_by_first(series),
    ensures
        ascending(expanded(series)),
    decreases series.len(),
{
    if series.len() > 0 {
        let rest = series.drop_last();
        assert(ascending_by_first(rest)) by {
            assert forall|i: int, j: int| 0 <= i <= j < rest.len() implies rest[i].0
                <= rest[j].0 by {
                assert(rest[i] == series[i] && rest[j] == series[j]);
            }
        }
        lemma_expanded_ascending(rest);
        let units = expanded(series);
        assert forall|i: int, j: int| 0 <= i <= j < units.len() implies units[i] <= units[j] by {
            if j < expanded(rest).len() {
                assert(units[i] == expanded(rest)[i] && units[j] == expanded(rest)[j]);
            } else if i < expanded(rest).len() {
                lemma_expanded_member(rest, i);
                let index = choose|index: int|
                    0 <= index < rest.len() && (#[trigger] rest[index]).1 > 0 && rest[index].0
                        == expanded(rest)[i];
                assert(rest[index] == series[index]);
                assert(series[index].0 <= series[series.len() - 1].0);
            }
        }
    }
}

/// The units of a series within limits make a price list within limits.
pub proof fn lemma_expanded_within_limits(series: Seq<(u64, u64)>)
    requires
        series_within_limits(series),
    ensures
        prices_within_limits(expanded(series)),
{
    lemma_expanded_totals(series);
    let units = expanded(series);
    assert forall|i: int| 0 <= i < units.len() implies units.len() * #[trigger] units[i]
        <= PRICE_LIMIT by {
        lemma_expanded_member(series, i);
        let index = choose|index: int|
            0 <= index < series.len() && (#[trigger] series[index]).1 > 0 && series[index].0
                == units[i];
        assert(quantity_total(series) * series[index].0 <= PRICE_LIMIT);
    }
}

/// The units of a run of pairs of a series are a run of the units of the series.
pub proof fn lemma_expanded_subrange(series: Seq<(u64, u64)>, start: int, end: int)
    requires
        0 <= start <= end <= series.len(),
    ensures
        units_before(series, start) <= units_before(series, end) <= expanded(series).len(),
        expanded(series.subrange(start, end)) == expanded(series).subrange(
            units_before(series, start) as int,
            units_before(series, end) as int,
        ),
    decreases end - start,
{
    lemma_expanded_totals(series);
    lemma_expanded_prefix(series, start);
    lemma_expanded_prefix(series, end);
    let units = expanded(series);
    if start == end {
        assert(series.subrange(start, end) =~= Seq::<(u64, u64)>::empty());
        assert(units.subrange(units_before(series, start) as int, units_before(series, end) as int)
            =~= Seq::<u64>::empty());
    } else {
        lemma_expanded_subrange(series, start, end - 1);
        let part = series.subrange(start, end);
        assert(part.drop_last() =~= series.subrange(start, end - 1));
        assert(part.last() == series[end - 1]);
        assert(series.take(end).drop_last() =~= series.take(end - 1));
        assert(units_before(series, end) == units_before(series, end - 1) + series[end - 1].1);
        let from = units_before(series, start) as int;
        let middle = units_before(series, end - 1) as int;
        let to = units_before(series, end) as int;
        let run = Seq::new(series[end - 1].1 as nat, |i: int| series[end - 1].0);
        assert forall|i: int| 0 <= i < run.len() implies units[middle + i] == run[i] by {
            lemma_expanded_index(series, end - 1, i);
        }
        assert(units.subrange(from, to) =~= units.subrange(from, middle) + run);
    }
}

} // verus!
