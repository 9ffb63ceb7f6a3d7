//! Sorting, done by the standard library.

use vstd::prelude::*;
use vstd::relations::{sorted_by, total_ordering};
use vstd::seq_lib::lemma_sorted_unique;

verus! {

/// Whether the prices ascend.
pub open spec fn ascending(prices: Seq<u64>) -> bool {
    forall|i: int, j: int| 0 <= i <= j < prices.len() ==> prices[i] <= prices[j]
}

/// Whether the pairs ascend by their first component.
pub open spec fn ascending_by_first(series: Seq<(u64, u64)>) -> bool {
    forall|i: int, j: int| 0 <= i <= j < series.len() ==> series[i].0 <= series[j].0
}

/// The prices in ascending order.
pub open spec fn sorted_prices(prices: Seq<u64>) -> Seq<u64> {
    prices.sort_by(|a: u64, b: u64| a <= b)
}

/// `sorted_prices` ascends and holds the values it was given.
pub proof fn lemma_sorted_prices(prices: Seq<u64>)
    ensures
        ascending(sorted_prices(prices)),
        sorted_prices(prices).to_multiset() == prices.to_multiset(),
        sorted_prices(prices).len() == prices.len(),
{
    let leq = |a: u64, b: u64| a <= b;
    assert(total_ordering(leq));
    prices.lemma_sort_by_ensures(leq);
    let sorted = sorted_prices(prices);
    assert(sorted_by(sorted, leq));
    assert forall|i: int, j: int| 0 <= i <= j < sorted.len() implies sorted[i] <= sorted[j] by {
        if i < j {
            assert(leq(sorted[i], sorted[j]));
        }
    }
    sorted.to_multiset_ensures();
    prices.to_multiset_ensures();
}

/// An ascending list that holds the values of `prices` is `sorted_prices(prices)`.
pub proof fn lemma_sorted_prices_unique(sorted: Seq<u64>, prices: Seq<u64>)
    requires
        ascending(sorted),
        sorted.to_multiset() == prices.to_multiset(),
    ensures
        sorted == sorted_prices(prices),
{
    let leq = |a: u64, b: u64| a <= b;
    assert(total_ordering(leq));
    prices.lemma_sort_by_ensures(leq);
    assert(sorted_by(sorted, leq));
    lemma_sorted_unique(sorted, sorted_prices(prices), leq);
}

/// Two lists of the same values have the same length and the same members.
pub proof fn lemma_same_values<A>(left: Seq<A>, right: Seq<A>)
    requires
        left.to_multiset() == right.to_multiset(),
    ensures
        left.len() == right.len(),
        forall|i: int| 0 <= i < left.len() ==> right.contains(#[trigger] left[i]),
{
    left.to_multiset_ensures();
    right.to_multiset_ensures();
    assert forall|i: int| 0 <= i < left.len() implies right.contains(#[trigger] left[i]) by {
        assert(left.contains(left[i]));
        assert(left.to_multiset().count(left[i]) > 0);
    }
}

/// Sorts the prices with `<[u64]>::sort_unstable`. The claim is the one the standard library
/// documents: afterwards the slice holds the same values, in ascending order.
#[verifier::external_body]
pub(crate) fn sort_prices(prices: &mut [u64])
    ensures
        ascending(final(prices)@),
        final(prices)@.to_multiset() == old(prices)@.to_multiset(),
{
    prices.sort_unstable();
}

/// Whether one pair comes before another, or is the same: by price, and by quantity between
/// pairs of one price.
pub open spec fn pair_leq(left: (u64, u64), right: (u64, u64)) -> bool {
    left.0 < right.0 || (left.0 == right.0 && left.1 <= right.1)
}

/// Whether the pairs ascend by price, and by quantity among pairs of one price.
pub open spec fn ascending_pairs(series: Seq<(u64, u64)>) -> bool {
    forall|i: int, j: int| 0 <= i <= j < series.len() ==> pair_leq(series[i], series[j])
}

/// The pairs in ascending order: by price, and by quantity among pairs of one price.
pub open spec fn sorted_series(series: Seq<(u64, u64)>) -> Seq<(u64, u64)> {
    series.sort_by(|left: (u64, u64), right: (u64, u64)| pair_leq(left, right))
}

/// `sorted_series` ascends and holds the pairs it was given.
pub proof fn lemma_sorted_series(series: Seq<(u64, u64)>)
    ensures
        ascending_pairs(sorted_series(series)),
        ascending_by_first(sorted_series(series)),
        sorted_series(series).to_multiset() == series.to_multiset(),
        sorted_series(series).len() == series.len(),
{
    let leq = |left: (u64, u64), right: (u64, u64)| pair_leq(left, right);
    assert(total_ordering(leq));
    series.lemma_sort_by_ensures(leq);
    let sorted = sorted_series(series);
    assert(sorted_by(sorted, leq));
    assert forall|i: int, j: int| 0 <= i <= j < sorted.len() implies pair_leq(
        sorted[i],
        sorted[j],
    ) by {
        if i < j {
            assert(leq(sorted[i], sorted[j]));
        }
    }
    assert forall|i: int, j: int| 0 <= i <= j < sorted.len() implies sorted[i].0
        <= sorted[j].0 by {
        assert(pair_leq(sorted[i], sorted[j]));
    }
    sorted.to_multiset_ensures();
    series.to_multiset_ensures();
}

/// An ascending series that holds the pairs of `series` is `sorted_series(series)`.
pub proof fn lemma_sorted_series_unique(sorted: Seq<(u64, u64)>, series: Seq<(u64, u64)>)
    requires
        ascending_pairs(sorted),
        sorted.to_multiset() == series.to_multiset(),
    ensures
        sorted == sorted_series(series),
{
    let leq = |left: (u64, u64), right: (u64, u64)| pair_leq(left, right);
    assert(total_ordering(leq));
    series.lemma_sort_by_ensures(leq);
    assert(sorted_by(sorted, leq));
    lemma_sorted_unique(sorted, sorted_series(series), leq);
}

/// Sorts the pairs with `<[(u64, u64)]>::sort_unstable`. The claim is the one the standard
/// library documents: afterwards the slice holds the same pairs in ascending order, and the
/// order of pairs is that of their first components, then of their second.
#[verifier::external_body]
pub(crate) fn sort_series(series: &mut [(u64, u64)])
    ensures
        ascending_pairs(final(series)@),
        final(series)@.to_multiset() == old(series)@.to_multiset(),
{
    series.sort_unstable();
}

/// Whether the points ascend by their first coordinate.
pub open spec fn ascending_points(points: Seq<(i32, i32)>) -> bool {
    forall|i: int, j: int| 0 <= i <= j < points.len() ==> points[i].0 <= points[j].0
}

/// The points whose first coordinate is `first`, in their order.
pub open spec fn points_at(points: Seq<(i32, i32)>, first: i32) -> Seq<(i32, i32)> {
    points.filter(|point: (i32, i32)| point.0 == first)
}

/// Sorts the points by their first coordinate with `<[(i32, i32)]>::sort_by_key`. The claim is
/// the one the standard library documents: afterwards the slice holds the same points, ascending
/// by first coordinate, and the sort is stable, so the points of one first coordinate stand in
/// the order in which they stood before.
#[verifier::external_body]
pub(crate) fn sort_points(points: &mut [(i32, i32)])
    ensures
        ascending_points(final(points)@),
        final(points)@.to_multiset() == old(points)@.to_multiset(),
        forall|first: i32| #[trigger]
            points_at(final(points)@, first) == points_at(old(points)@, first),
{
    points.sort_by_key(|point| point.0);
}

} // verus!
