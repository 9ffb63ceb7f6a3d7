//! The summary of a snapshot: the auctions and the price statistics of each item, of each level
//! of each item, and of each pet species.

use crate::battlenet::auctions::{Auction, AuctionFile, Item};
use crate::parse::groups::{
    all_fit, chosen_indices, chosen_prices, groups_fit, groups_within_reach, holds_group,
    holds_level_group, item_choice, lemma_chosen, lemma_levels_within_reach, lemma_no_members,
    level_choice, level_lookup, level_members_of, members_of, no_item_without_level, pet_choice,
    species_lookup, Gathered,
};
use crate::parse::item_level::ItemLevelCurvePoints;
use crate::parse::resolver::{all_have_points, curves_have_points};
use crate::utils::moments::{lemma_moments_permutation, Moments};
use crate::utils::series::{
    count_units, lemma_totals_permutation, quantity_total, series_within_reach,
};
use crate::utils::sorting::{lemma_same_values, lemma_sorted_series, sorted_series};
use crate::utils::stats::{
    lemma_normalized_price_of_sorted_in_range, lemma_sorted_within_limits,
    normalized_market_price_with_qty, normalized_price_of_sorted, std_dev_amount_qty, std_dev_of,
    Ratio, StdDev,
};
use crate::wow::data_tables::Db2ItemBonuses;
use std::collections::{HashMap, HashSet};
use std::hash::Hash;
use vstd::prelude::*;
use vstd::slice::slice_to_vec;
use vstd::std_specs::hash::obeys_key_model;

verus! {

broadcast use vstd::std_specs::hash::group_hash_axioms;

/// The price statistics of a group of auctions.
#[derive(Clone, Copy, Debug, PartialEq, Eq, Structural)]
pub struct ItemSummary {
    /// The market price of the group.
    pub market_price: u64,
    /// The standard deviation of the prices of the units of the group, taken as a population.
    pub std_dev: StdDev,
    /// The lowest price in the group.
    pub min_buyout: u64,
    /// The number of units on sale in the group.
    pub total_qty: u64,
    /// The number of auctions in the group.
    pub num_auctions: u64,
}

/// The standard deviation of a group with fewer than two units: none at all.
pub open spec fn no_std_dev() -> StdDev {
    StdDev { variance: Ratio { numerator: 0, denominator: 1 } }
}

/// The price statistics of a group with these prices and quantities; none for a group without
/// units.
pub open spec fn summary_spec(series: Seq<(u64, u64)>) -> Option<ItemSummary> {
    let sorted = sorted_series(series);
    if quantity_total(series) == 0 {
        None
    } else {
        Some(
            ItemSummary {
                market_price: normalized_price_of_sorted(sorted)->0,
                std_dev: if quantity_total(series) < 2 {
                    no_std_dev()
                } else {
                    std_dev_of(Moments::of_series(series), true)
                },
                min_buyout: sorted[0].0,
                total_qty: quantity_total(series) as u64,
                num_auctions: series.len() as u64,
            },
        )
    }
}

/// Whether `summaries` holds under `key` the statistics of the series, and does not hold the key
/// where the series has none.
pub open spec fn holds_summary<K>(
    summaries: Map<K, ItemSummary>,
    key: K,
    series: Seq<(u64, u64)>,
) -> bool {
    match summary_spec(series) {
        Some(summary) => summaries.contains_key(key) && summaries[key] == summary,
        None => !summaries.contains_key(key),
    }
}

/// Whether `summaries` holds under an item and a level the statistics of the series, and does
/// not hold the level where the series has none.
pub open spec fn holds_level_summary(
    summaries: Map<u64, HashMap<u32, ItemSummary>>,
    item_id: u64,
    level: u32,
    series: Seq<(u64, u64)>,
) -> bool {
    match summary_spec(series) {
        Some(summary) => summaries.contains_key(item_id) && summaries[item_id]@.contains_key(level)
            && summaries[item_id]@[level] == summary,
        None => !(summaries.contains_key(item_id) && summaries[item_id]@.contains_key(level)),
    }
}

/// Whether one of the groups has statistics.
pub open spec fn has_summary(groups: Map<u32, Vec<(u64, u64)>>) -> bool {
    exists|level: u32| summary_spec(#[trigger] members_of(groups, level)) is Some
}

/// Whether `after` is `before` with the statistics of the group of `key` put under `key`, where
/// the group has any.
pub open spec fn summary_inserted<K>(
    before: Map<K, ItemSummary>,
    after: Map<K, ItemSummary>,
    prices: Map<K, Vec<(u64, u64)>>,
    key: K,
) -> bool {
    match summary_spec(members_of(prices, key)) {
        Some(summary) => after.contains_key(key) && after[key] == summary,
        None => after.contains_key(key) == before.contains_key(key) && (before.contains_key(key)
            ==> after[key] == before[key]),
    }
}

/// Statistics of a snapshot.
pub struct AuctionsSummary {
    /// The auctions of each item that can be bought, by item id.
    pub item_auctions: HashMap<u64, Vec<usize>>,
    /// The price statistics of each item, by item id.
    pub item_summaries: HashMap<u64, ItemSummary>,
    /// The auctions of each level of each item that is no pet, by item id and level.
    pub item_level_auctions: HashMap<u64, HashMap<u32, Vec<usize>>>,
    /// The price statistics of each level of each item that is no pet, by item id and level.
    pub item_level_summaries: HashMap<u64, HashMap<u32, ItemSummary>>,
    /// The auctions of each pet species, caged or not, by species id.
    pub pet_auctions: HashMap<u32, Vec<usize>>,
    /// The price statistics of each pet species, by species id.
    pub pet_summaries: HashMap<u32, ItemSummary>,
}

/// The statistics of one group.
fn summarize(series: &Vec<(u64, u64)>) -> (summary: Option<ItemSummary>)
    requires
        series_within_reach(series@),
    ensures
        summary == summary_spec(series@),
{
    let mut sorted = slice_to_vec(series.as_slice());
    proof {
        lemma_sorted_series(series@);
        lemma_totals_permutation(sorted_series(series@), series@);
        lemma_moments_permutation(sorted_series(series@), series@);
        if quantity_total(series@) >= 2 {
            lemma_sorted_within_limits(series@);
        }
    }
    match normalized_market_price_with_qty(sorted.as_mut_slice()) {
        Some(market_price) => {
            let units = count_units(sorted.as_slice());
            let std_dev = match std_dev_amount_qty(sorted.as_slice(), true) {
                Some(std_dev) => std_dev,
                None => StdDev { variance: Ratio { numerator: 0, denominator: 1 } },
            };
            Some(
                ItemSummary {
                    market_price,
                    std_dev,
                    min_buyout: sorted[0].0,
                    total_qty: units as u64,
                    num_auctions: series.len() as u64,
                },
            )
        },
        None => None,
    }
}

/// The statistics of each level of each item that has units.
fn summarize_levels(prices: &HashMap<u64, HashMap<u32, Vec<(u64, u64)>>>) -> (summaries: HashMap<
    u64,
    HashMap<u32, ItemSummary>,
>)
    requires
        forall|item_id: u64| #[trigger]
            prices@.contains_key(item_id) ==> groups_fit(prices@[item_id]@),
    ensures
        forall|item_id: u64, level: u32| #[trigger]
            holds_level_summary(
                summaries@,
                item_id,
                level,
                level_members_of(prices@, item_id, level),
            ),
        no_item_without_level(summaries@),
{
    let mut summaries: HashMap<u64, HashMap<u32, ItemSummary>> = HashMap::new();
    for (item_id, levels) in iter: prices.iter()
        invariant
            forall|item_id: u64| #[trigger]
                prices@.contains_key(item_id) ==> groups_fit(prices@[item_id]@),
            forall|item_id: u64| #[trigger]
                summaries@.contains_key(item_id) ==> {
                    &&& prices@.contains_key(item_id)
                    &&& !summaries@[item_id]@.is_empty()
                    &&& forall|level: u32| #[trigger]
                        holds_summary(
                            summaries@[item_id]@,
                            level,
                            members_of(prices@[item_id]@, level),
                        )
                },
            forall|i: int|
                0 <= i < iter.index() && has_summary(prices@[*(#[trigger] iter.seq()[i]).0]@)
                    ==> summaries@.contains_key(*iter.seq()[i].0),
    {
        assert(prices@.contains_key(*item_id) && prices@[*item_id] == *levels);
        let mut of_levels: HashMap<u32, ItemSummary> = HashMap::new();
        AuctionsSummary::insert_item_summary(levels, &mut of_levels);
        proof {
            assert forall|level: u32| #[trigger]
                holds_summary(of_levels@, level, members_of(levels@, level)) by {
                assert(summary_inserted(Map::empty(), of_levels@, levels@, level));
            }
        }
        if !of_levels.is_empty() {
            summaries.insert(*item_id, of_levels);
        } else {
            assert forall|level: u32|
                summary_spec(#[trigger] members_of(levels@, level)) is None by {
                assert(holds_summary(of_levels@, level, members_of(levels@, level)));
            }
        }
    }
    proof {
        assert forall|item_id: u64, level: u32| #[trigger]
            holds_level_summary(
                summaries@,
                item_id,
                level,
                level_members_of(prices@, item_id, level),
            ) by {
            if prices@.contains_key(item_id) {
                let series = members_of(prices@[item_id]@, level);
                assert(series == level_members_of(prices@, item_id, level));
                if summaries@.contains_key(item_id) {
                    assert(holds_summary(summaries@[item_id]@, level, series));
                } else if summary_spec(series) is Some {
                    assert(has_summary(prices@[item_id]@));
                }
            } else {
                assert(quantity_total(level_members_of(prices@, item_id, level)) == 0);
            }
        }
    }
    summaries
}

impl AuctionsSummary {
    /// Whether the summary holds, for each item, each pet species and each level of each item
    /// that is no pet, the auctions that can be bought and the statistics of their prices, and
    /// nothing else. A group without units has no statistics.
    pub open spec fn summarizes(
        &self,
        auctions: Seq<Auction>,
        species_of: spec_fn(Item) -> Option<u32>,
        level_of: spec_fn(Item) -> u32,
    ) -> bool {
        &&& forall|item_id: u64| #[trigger]
            holds_group(
                self.item_auctions@,
                item_id,
                chosen_indices(auctions, item_choice(item_id)),
            )
        &&& forall|item_id: u64| #[trigger]
            holds_summary(
                self.item_summaries@,
                item_id,
                chosen_prices(auctions, item_choice(item_id)),
            )
        &&& forall|species: u32| #[trigger]
            holds_group(
                self.pet_auctions@,
                species,
                chosen_indices(auctions, pet_choice(species_of, species)),
            )
        &&& forall|species: u32| #[trigger]
            holds_summary(
                self.pet_summaries@,
                species,
                chosen_prices(auctions, pet_choice(species_of, species)),
            )
        &&& forall|item_id: u64, level: u32| #[trigger]
            holds_level_group(
                self.item_level_auctions@,
                item_id,
                level,
                chosen_indices(auctions, level_choice(species_of, level_of, item_id, level)),
            )
        &&& forall|item_id: u64, level: u32| #[trigger]
            holds_level_summary(
                self.item_level_summaries@,
                item_id,
                level,
                chosen_prices(auctions, level_choice(species_of, level_of, item_id, level)),
            )
        &&& no_item_without_level(self.item_level_auctions@)
        &&& no_item_without_level(self.item_level_summaries@)
    }

    /// Puts the statistics of each group of `prices` that has units into `items`, under the key
    /// of the group.
    pub fn insert_item_summary<K: Eq + Hash + Copy>(
        prices: &HashMap<K, Vec<(u64, u64)>>,
        items: &mut HashMap<K, ItemSummary>,
    )
        requires
            obeys_key_model::<K>(),
            groups_fit(prices@),
        ensures
            forall|key: K| #[trigger] summary_inserted(old(items)@, final(items)@, prices@, key),
    {
        for (key, series) in iter: prices.iter()
            invariant
                obeys_key_model::<K>(),
                groups_fit(prices@),
                forall|key: K| #[trigger]
                    old(items)@.contains_key(key) ==> items@.contains_key(key),
                forall|key: K|
                    summary_spec(#[trigger] members_of(prices@, key)) is None
                        && items@.contains_key(key) ==> old(items)@.contains_key(key) && items@[key]
                        == old(items)@[key],
                forall|i: int|
                    0 <= i < iter.index() ==> summary_inserted(
                        old(items)@,
                        items@,
                        prices@,
                        *(#[trigger] iter.seq()[i]).0,
                    ),
        {
            assert(prices@.contains_key(*key) && prices@[*key] == *series);
            let ghost before = items@;
            match summarize(series) {
                Some(summary) => {
                    items.insert(*key, summary);
                },
                None => {},
            }
            proof {
                assert forall|i: int| 0 <= i < iter.index() implies summary_inserted(
                    old(items)@,
                    items@,
                    prices@,
                    *(#[trigger] iter.seq()[i]).0,
                ) by {
                    assert(summary_inserted(old(items)@, before, prices@, *iter.seq()[i].0));
                }
            }
        }
        proof {
            assert forall|key: K| #[trigger]
                summary_inserted(old(items)@, items@, prices@, key) by {
                if summary_spec(members_of(prices@, key)) is Some {
                    assert(prices@.contains_key(key)) by {
                        if !prices@.contains_key(key) {
                            assert(quantity_total(members_of(prices@, key)) == 0);
                        }
                    }
                }
            }
        }
    }

    /// The statistics of the groups of a snapshot, with the auctions of each group.
    fn summarize_groups(
        gathered: Gathered,
        Ghost(auctions): Ghost<Seq<Auction>>,
        Ghost(species_of): Ghost<spec_fn(Item) -> Option<u32>>,
        Ghost(level_of): Ghost<spec_fn(Item) -> u32>,
    ) -> (summary: AuctionsSummary)
        requires
            gathered.gathers(auctions, species_of, level_of),
            groups_within_reach(auctions, species_of),
        ensures
            summary.summarizes(auctions, species_of, level_of),
    {
        proof {
            assert forall|item_id: u64| #[trigger]
                gathered.item_prices@.contains_key(item_id) implies series_within_reach(
                gathered.item_prices@[item_id]@,
            ) by {
                let series = chosen_prices(auctions, item_choice(item_id));
                assert(holds_group(gathered.item_prices@, item_id, series));
                assert(series_within_reach(series));
            }
            assert forall|species: u32| #[trigger]
                gathered.pet_prices@.contains_key(species) implies series_within_reach(
                gathered.pet_prices@[species]@,
            ) by {
                let series = chosen_prices(auctions, pet_choice(species_of, species));
                assert(holds_group(gathered.pet_prices@, species, series));
                assert(series_within_reach(series));
            }
            assert forall|item_id: u64| #[trigger]
                gathered.item_level_prices@.contains_key(item_id) implies groups_fit(
                gathered.item_level_prices@[item_id]@,
            ) by {
                assert forall|level: u32| #[trigger]
                    gathered.item_level_prices@[item_id]@.contains_key(
                        level,
                    ) implies series_within_reach(
                    gathered.item_level_prices@[item_id]@[level]@,
                ) by {
                    let series = chosen_prices(
                        auctions,
                        level_choice(species_of, level_of, item_id, level),
                    );
                    assert(holds_level_group(gathered.item_level_prices@, item_id, level, series));
                    lemma_levels_within_reach(auctions, species_of, level_of, item_id, level);
                }
            }
        }
        let mut item_summaries: HashMap<u64, ItemSummary> = HashMap::new();
        AuctionsSummary::insert_item_summary(&gathered.item_prices, &mut item_summaries);
        let mut pet_summaries: HashMap<u32, ItemSummary> = HashMap::new();
        AuctionsSummary::insert_item_summary(&gathered.pet_prices, &mut pet_summaries);
        let item_level_summaries = summarize_levels(&gathered.item_level_prices);
        let summary = AuctionsSummary {
            item_auctions: gathered.item_auctions,
            item_summaries,
            item_level_auctions: gathered.item_level_auctions,
            item_level_summaries,
            pet_auctions: gathered.pet_auctions,
            pet_summaries,
        };
        proof {
            assert forall|item_id: u64| #[trigger]
                holds_summary(
                    summary.item_summaries@,
                    item_id,
                    chosen_prices(auctions, item_choice(item_id)),
                ) by {
                let series = chosen_prices(auctions, item_choice(item_id));
                assert(holds_group(gathered.item_prices@, item_id, series));
                assert(summary_inserted(
                    Map::empty(),
                    summary.item_summaries@,
                    gathered.item_prices@,
                    item_id,
                ));
                if series.len() == 0 {
                    lemma_no_members(series);
                }
            }
            assert forall|species: u32| #[trigger]
                holds_summary(
                    summary.pet_summaries@,
                    species,
                    chosen_prices(auctions, pet_choice(species_of, species)),
                ) by {
                let series = chosen_prices(auctions, pet_choice(species_of, species));
                assert(holds_group(gathered.pet_prices@, species, series));
                assert(summary_inserted(
                    Map::empty(),
                    summary.pet_summaries@,
                    gathered.pet_prices@,
                    species,
                ));
                if series.len() == 0 {
                    lemma_no_members(series);
                }
            }
            assert forall|item_id: u64, level: u32| #[trigger]
                holds_level_summary(
                    summary.item_level_summaries@,
                    item_id,
                    level,
                    chosen_prices(auctions, level_choice(species_of, level_of, item_id, level)),
                ) by {
                let series = chosen_prices(
                    auctions,
                    level_choice(species_of, level_of, item_id, level),
                );
                assert(holds_level_group(gathered.item_level_prices@, item_id, level, series));
                assert(holds_level_summary(
                    summary.item_level_summaries@,
                    item_id,
                    level,
                    level_members_of(gathered.item_level_prices@, item_id, level),
                ));
                if series.len() == 0 {
                    lemma_no_members(series);
                }
            }
        }
        summary
    }

    /// Summarizes a snapshot.
    ///
    /// Auctions that cannot be bought are passed over. Every other auction is counted under its
    /// item, and besides either under its pet species, where its item is a caged pet or teaches
    /// a pet, or else under its item and the level of its item. The summary holds the auctions
    /// of each group, by their index in the snapshot and in its order, and the price statistics
    /// of each group that has units.
    pub fn from_auction_file(
        auction_file: &AuctionFile,
        curve_points: &ItemLevelCurvePoints,
        db2_bonuses: &Db2ItemBonuses,
        base_ilvls: &HashMap<u64, u32>,
        item_to_pet: &HashMap<u64, u32>,
        equippable_items: &HashSet<u64>,
    ) -> (summary: AuctionsSummary)
        requires
            curves_have_points(curve_points@),
            groups_within_reach(auction_file.auctions@, species_lookup(item_to_pet@)),
        ensures
            summary.summarizes(
                auction_file.auctions@,
                species_lookup(item_to_pet@),
                level_lookup(*db2_bonuses, base_ilvls@, curve_points@, equippable_items@),
            ),
    {
        let gathered = AuctionsSummary::gather(
            &auction_file.auctions,
            curve_points,
            db2_bonuses,
            base_ilvls,
            item_to_pet,
            equippable_items,
        );
        AuctionsSummary::summarize_groups(
            gathered,
            Ghost(auction_file.auctions@),
            Ghost(species_lookup(item_to_pet@)),
            Ghost(level_lookup(*db2_bonuses, base_ilvls@, curve_points@, equippable_items@)),
        )
    }

    /// Summarizes a snapshot as `from_auction_file` does, where every curve has a control point
    /// and the prices of every group are within reach of the price statistics; else there
    /// is no summary.
    pub fn try_from_auction_file(
        auction_file: &AuctionFile,
        curve_points: &ItemLevelCurvePoints,
        db2_bonuses: &Db2ItemBonuses,
        base_ilvls: &HashMap<u64, u32>,
        item_to_pet: &HashMap<u64, u32>,
        equippable_items: &HashSet<u64>,
    ) -> (summary: Option<AuctionsSummary>)
        ensures
            summary is Some <==> curves_have_points(curve_points@) && groups_within_reach(
                auction_file.auctions@,
                species_lookup(item_to_pet@),
            ),
            summary matches Some(summary) ==> summary.summarizes(
                auction_file.auctions@,
                species_lookup(item_to_pet@),
                level_lookup(*db2_bonuses, base_ilvls@, curve_points@, equippable_items@),
            ),
    {
        if !all_have_points(curve_points) {
            return None;
        }
        let ghost auctions = auction_file.auctions@;
        let ghost species_of = species_lookup(item_to_pet@);
        let ghost level_of = level_lookup(
            *db2_bonuses,
            base_ilvls@,
            curve_points@,
            equippable_items@,
        );
        let gathered = AuctionsSummary::gather(
            &auction_file.auctions,
            curve_points,
            db2_bonuses,
            base_ilvls,
            item_to_pet,
            equippable_items,
        );
        let items_fit = all_fit(&gathered.item_prices);
        let pets_fit = all_fit(&gathered.pet_prices);
        proof {
            if items_fit {
                assert forall|item_id: u64|
                    series_within_reach(
                        #[trigger] chosen_prices(auctions, item_choice(item_id)),
                    ) by {
                    let series = chosen_prices(auctions, item_choice(item_id));
                    assert(holds_group(gathered.item_prices@, item_id, series));
                    if series.len() == 0 {
                        lemma_no_members(series);
                    }
                }
            } else {
                let item_id = choose|item_id: u64| #[trigger]
                    gathered.item_prices@.contains_key(item_id) && !series_within_reach(
                        gathered.item_prices@[item_id]@,
                    );
                assert(holds_group(
                    gathered.item_prices@,
                    item_id,
                    chosen_prices(auctions, item_choice(item_id)),
                ));
                if chosen_prices(auctions, item_choice(item_id)).len() == 0 {
                    lemma_no_members(chosen_prices(auctions, item_choice(item_id)));
                }
            }
            if pets_fit {
                assert forall|species: u32|
                    series_within_reach(
                        #[trigger] chosen_prices(auctions, pet_choice(species_of, species)),
                    ) by {
                    let series = chosen_prices(auctions, pet_choice(species_of, species));
                    assert(holds_group(gathered.pet_prices@, species, series));
                    if series.len() == 0 {
                        lemma_no_members(series);
                    }
                }
            } else {
                let species = choose|species: u32| #[trigger]
                    gathered.pet_prices@.contains_key(species) && !series_within_reach(
                        gathered.pet_prices@[species]@,
                    );
                let series = chosen_prices(auctions, pet_choice(species_of, species));
                assert(holds_group(gathered.pet_prices@, species, series));
                if series.len() == 0 {
                    lemma_no_members(series);
                }
            }
        }
        if !(items_fit && pets_fit) {
            return None;
        }
        Some(
            AuctionsSummary::summarize_groups(
                gathered,
                Ghost(auctions),
                Ghost(species_of),
                Ghost(level_of),
            ),
        )
    }
}

/// A group with units has statistics, and its market price is no lower than its lowest price,
/// which is the lowest of the prices of the group.
pub proof fn lemma_summary_in_range(series: Seq<(u64, u64)>)
    requires
        series_within_reach(series),
        quantity_total(series) > 0,
    ensures
        summary_spec(series) is Some,
        summary_spec(series)->0.min_buyout <= summary_spec(series)->0.market_price,
        forall|i: int|
            0 <= i < series.len() ==> summary_spec(series)->0.min_buyout <= (
            #[trigger] series[i]).0,
        exists|i: int|
            0 <= i < series.len() && (#[trigger] series[i]).0 == summary_spec(series)->0.min_buyout,
{
    let sorted = sorted_series(series);
    lemma_sorted_series(series);
    lemma_totals_permutation(sorted, series);
    if quantity_total(series) >= 2 {
        lemma_sorted_within_limits(series);
    }
    lemma_normalized_price_of_sorted_in_range(sorted);
    lemma_same_values(series, sorted);
    lemma_same_values(sorted, series);
    assert(sorted.len() > 0) by {
        if sorted.len() == 0 {
            assert(sorted =~= Seq::<(u64, u64)>::empty());
        }
    }
    assert forall|i: int| 0 <= i < series.len() implies sorted[0].0 <= (#[trigger] series[i]).0 by {
        assert(sorted.contains(series[i]));
        let j = choose|j: int| 0 <= j < sorted.len() && sorted[j] == series[i];
        assert(sorted[0].0 <= sorted[j].0);
    }
    assert(series.contains(sorted[0]));
    let at = choose|i: int| 0 <= i < series.len() && series[i] == sorted[0];
    assert(series[at].0 == sorted[0].0);
}

/// The statistics of an item count the auctions that the summary holds for the item.
pub proof fn lemma_summary_counts_auctions(
    summary: AuctionsSummary,
    auctions: Seq<Auction>,
    species_of: spec_fn(Item) -> Option<u32>,
    level_of: spec_fn(Item) -> u32,
    item_id: u64,
)
    requires
        auctions.len() <= usize::MAX,
        groups_within_reach(auctions, species_of),
        summary.summarizes(auctions, species_of, level_of),
        summary.item_summaries@.contains_key(item_id),
    ensures
        summary.item_auctions@.contains_key(item_id),
        summary.item_summaries@[item_id].num_auctions == summary.item_auctions@[item_id]@.len(),
        summary.item_summaries@[item_id].total_qty == quantity_total(
            chosen_prices(auctions, item_choice(item_id)),
        ),
{
    let series = chosen_prices(auctions, item_choice(item_id));
    let indices = chosen_indices(auctions, item_choice(item_id));
    lemma_chosen(auctions, item_choice(item_id));
    assert(holds_summary(summary.item_summaries@, item_id, series));
    assert(holds_group(summary.item_auctions@, item_id, indices));
    assert(series_within_reach(series));
    if series.len() == 0 {
        lemma_no_members(series);
    }
    assert(indices.len() <= auctions.len()) by {
        lemma_strictly_ascending_length(indices, auctions.len() as int);
    }
}

/// A strictly ascending sequence of indices under a bound is no longer than the bound.
proof fn lemma_strictly_ascending_length(indices: Seq<usize>, bound: int)
    requires
        0 <= bound,
        forall|k: int| 0 <= k < indices.len() ==> (#[trigger] indices[k]) < bound,
        forall|k: int, l: int| 0 <= k < l < indices.len() ==> indices[k] < indices[l],
    ensures
        indices.len() <= bound,
    decreases indices.len(),
{
    if indices.len() > 0 {
        let rest = indices.drop_last();
        assert forall|k: int| 0 <= k < rest.len() implies (#[trigger] rest[k]) < indices.last() by {
            assert(rest[k] == indices[k]);
        }
        assert forall|k: int, l: int| 0 <= k < l < rest.len() implies rest[k] < rest[l] by {
            assert(rest[k] == indices[k] && rest[l] == indices[l]);
        }
        lemma_strictly_ascending_length(rest, indices.last() as int);
    }
}

} // verus!
