//! The groups of a snapshot: which auctions are counted under an item, under a pet species, and
//! under a level of an item.
//!
//! Auctions are named by their index in the snapshot.

use crate::battlenet::auctions::{Auction, Item};
use crate::parse::item_level::{ItemLevelCurve, ItemLevelCurvePoints};
use crate::parse::resolver::{curves_have_points, resolve_item_level_spec};
use crate::parse::summary::AuctionsSummary;
use crate::utils::series::{
    lemma_part_within_limits, quantity_total, series_is_within_reach, series_within_reach,
};
use crate::wow::data_tables::Db2ItemBonuses;
use std::collections::{HashMap, HashSet};
use std::hash::Hash;
use vstd::prelude::*;
use vstd::std_specs::hash::obeys_key_model;

verus! {

broadcast use vstd::std_specs::hash::group_hash_axioms;

/// The price and the quantity of an auction that can be bought.
pub open spec fn price_pair(auction: Auction) -> (u64, u64) {
    (auction.price_spec()->0, auction.quantity as u64)
}

/// The indices of the auctions that `choice` picks, in the order of the snapshot.
pub open spec fn chosen_indices(auctions: Seq<Auction>, choice: spec_fn(Auction) -> bool) -> Seq<
    usize,
>
    decreases auctions.len(),
{
    if auctions.len() == 0 {
        Seq::empty()
    } else if choice(auctions.last()) {
        chosen_indices(auctions.drop_last(), choice).push((auctions.len() - 1) as usize)
    } else {
        chosen_indices(auctions.drop_last(), choice)
    }
}

/// The prices and quantities of the auctions that `choice` picks, in the order of the snapshot.
pub open spec fn chosen_prices(auctions: Seq<Auction>, choice: spec_fn(Auction) -> bool) -> Seq<
    (u64, u64),
>
    decreases auctions.len(),
{
    if auctions.len() == 0 {
        Seq::empty()
    } else if choice(auctions.last()) {
        chosen_prices(auctions.drop_last(), choice).push(price_pair(auctions.last()))
    } else {
        chosen_prices(auctions.drop_last(), choice)
    }
}

/// The choice of the auctions of an item that can be bought.
pub open spec fn item_choice(item_id: u64) -> spec_fn(Auction) -> bool {
    |auction: Auction| auction.is_buyable() && auction.item.id == item_id
}

/// The pet species of an item: that of the pet in the cage, or else the species that the item
/// teaches.
pub open spec fn species_spec(item: Item, item_to_pet: Map<u64, u32>) -> Option<u32> {
    match item.pet_spec() {
        Some(pet) => Some(pet.species),
        None => if item_to_pet.contains_key(item.id) {
            Some(item_to_pet[item.id])
        } else {
            None
        },
    }
}

/// The pet species of each item, given the species that items teach.
pub open spec fn species_lookup(item_to_pet: Map<u64, u32>) -> spec_fn(Item) -> Option<u32> {
    |item: Item| species_spec(item, item_to_pet)
}

/// The choice of the auctions of a pet species that can be bought.
pub open spec fn pet_choice(species_of: spec_fn(Item) -> Option<u32>, species: u32) -> spec_fn(
    Auction,
) -> bool {
    |auction: Auction| auction.is_buyable() && species_of(auction.item) == Some(species)
}

/// The level of each item, given the lookups.
pub open spec fn level_lookup(
    db2_bonuses: Db2ItemBonuses,
    base_ilvls: Map<u64, u32>,
    curve_points: Map<u32, ItemLevelCurve>,
    equippable_items: Set<u64>,
) -> spec_fn(Item) -> u32 {
    |item: Item|
        resolve_item_level_spec(
            item,
            equippable_items.contains(item.id),
            db2_bonuses,
            base_ilvls,
            curve_points,
        )
}

/// The choice of the auctions of one level of an item that is no pet, and that can be bought.
pub open spec fn level_choice(
    species_of: spec_fn(Item) -> Option<u32>,
    level_of: spec_fn(Item) -> u32,
    item_id: u64,
    level: u32,
) -> spec_fn(Auction) -> bool {
    |auction: Auction|
        auction.is_buyable() && auction.item.id == item_id && species_of(auction.item) is None
            && level_of(auction.item) == level
}

/// The members of the group of `key`; none where the key is not held.
pub open spec fn members_of<K, T>(groups: Map<K, Vec<T>>, key: K) -> Seq<T> {
    if groups.contains_key(key) {
        groups[key]@
    } else {
        Seq::empty()
    }
}

/// The members of the group of an item and a level; none where the level is not held.
pub open spec fn level_members_of<T>(
    groups: Map<u64, HashMap<u32, Vec<T>>>,
    item_id: u64,
    level: u32,
) -> Seq<T> {
    if groups.contains_key(item_id) {
        members_of(groups[item_id]@, level)
    } else {
        Seq::empty()
    }
}

/// Whether `groups` holds under `key` exactly these members, and does not hold the key where
/// there are none.
pub open spec fn holds_group<K, T>(groups: Map<K, Vec<T>>, key: K, members: Seq<T>) -> bool {
    if members.len() > 0 {
        groups.contains_key(key) && groups[key]@ == members
    } else {
        !groups.contains_key(key)
    }
}

/// Whether `groups` holds under an item and a level exactly these members, and does not hold the
/// level where there are none.
pub open spec fn holds_level_group<T>(
    groups: Map<u64, HashMap<u32, Vec<T>>>,
    item_id: u64,
    level: u32,
    members: Seq<T>,
) -> bool {
    if members.len() > 0 {
        groups.contains_key(item_id) && groups[item_id]@.contains_key(level)
            && groups[item_id]@[level]@ == members
    } else {
        !(groups.contains_key(item_id) && groups[item_id]@.contains_key(level))
    }
}

/// Whether no item is held without a level.
pub open spec fn no_item_without_level<T>(groups: Map<u64, HashMap<u32, T>>) -> bool {
    forall|item_id: u64| #[trigger] groups.contains_key(item_id) ==> !groups[item_id]@.is_empty()
}

/// Whether the prices of each item and of each pet species of a snapshot are within reach of the
/// price statistics. Those of each level of an item then are, too.
pub open spec fn groups_within_reach(
    auctions: Seq<Auction>,
    species_of: spec_fn(Item) -> Option<u32>,
) -> bool {
    &&& forall|item_id: u64|
        series_within_reach(#[trigger] chosen_prices(auctions, item_choice(item_id)))
    &&& forall|species: u32|
        series_within_reach(#[trigger] chosen_prices(auctions, pet_choice(species_of, species)))
}

/// Whether the prices of every group are within reach of the price statistics.
pub open spec fn groups_fit<K>(groups: Map<K, Vec<(u64, u64)>>) -> bool {
    forall|key: K| #[trigger] groups.contains_key(key) ==> series_within_reach(groups[key]@)
}

/// The auctions and the prices of a snapshot, gathered by item, by pet species, and by item and
/// level.
pub struct Gathered {
    /// The auctions of each item.
    pub item_auctions: HashMap<u64, Vec<usize>>,
    /// The prices and quantities of the auctions of each item.
    pub item_prices: HashMap<u64, Vec<(u64, u64)>>,
    /// The auctions of each pet species.
    pub pet_auctions: HashMap<u32, Vec<usize>>,
    /// The prices and quantities of the auctions of each pet species.
    pub pet_prices: HashMap<u32, Vec<(u64, u64)>>,
    /// The auctions of each level of each item that is no pet.
    pub item_level_auctions: HashMap<u64, HashMap<u32, Vec<usize>>>,
    /// The prices and quantities of the auctions of each level of each item that is no pet.
    pub item_level_prices: HashMap<u64, HashMap<u32, Vec<(u64, u64)>>>,
}

impl Gathered {
    /// Whether each group holds the auctions that belong to it, in the order of the snapshot, and
    /// no group is empty.
    pub open spec fn gathers(
        &self,
        auctions: Seq<Auction>,
        species_of: spec_fn(Item) -> Option<u32>,
        level_of: spec_fn(Item) -> u32,
    ) -> bool {
        &&& forall|item_id: u64| #[trigger]
            holds_group(
                self.item_auctions@,
                item_id,
                chosen_indices(auctions, item_choice(item_id)),
            )
        &&& forall|item_id: u64| #[trigger]
            holds_group(self.item_prices@, item_id, chosen_prices(auctions, item_choice(item_id)))
        &&& forall|species: u32| #[trigger]
            holds_group(
                self.pet_auctions@,
                species,
                chosen_indices(auctions, pet_choice(species_of, species)),
            )
        &&& forall|species: u32| #[trigger]
            holds_group(
                self.pet_prices@,
                species,
                chosen_prices(auctions, pet_choice(species_of, species)),
            )
        &&& forall|item_id: u64, level: u32| #[trigger]
            holds_level_group(
                self.item_level_auctions@,
                item_id,
                level,
                chosen_indices(auctions, level_choice(species_of, level_of, item_id, level)),
            )
        &&& forall|item_id: u64, level: u32| #[trigger]
            holds_level_group(
                self.item_level_prices@,
                item_id,
                level,
                chosen_prices(auctions, level_choice(species_of, level_of, item_id, level)),
            )
        &&& no_item_without_level(self.item_level_auctions@)
        &&& no_item_without_level(self.item_level_prices@)
    }
}

/// Whether `after` is `before` with one more member at the end of the group of `key`.
pub open spec fn group_added<K, T>(
    before: Map<K, Vec<T>>,
    after: Map<K, Vec<T>>,
    key: K,
    member: T,
) -> bool {
    &&& after.contains_key(key)
    &&& after[key]@ == (if before.contains_key(key) {
        before[key]@
    } else {
        Seq::empty()
    }).push(member)
    &&& forall|other: K|
        #![trigger after.contains_key(other)]
        #![trigger after[other]]
        other != key ==> (after.contains_key(other) == before.contains_key(other) && (
        before.contains_key(other) ==> after[other] == before[other]))
}

/// Adds a member to the group of a key.
fn add_to_group<K: Eq + Hash + Copy, T>(groups: &mut HashMap<K, Vec<T>>, key: K, member: T)
    requires
        obeys_key_model::<K>(),
    ensures
        group_added(old(groups)@, final(groups)@, key, member),
{
    let mut members = match groups.remove(&key) {
        Some(members) => members,
        None => Vec::new(),
    };
    members.push(member);
    groups.insert(key, members);
}

/// Whether `after` is `before` with one more member at the end of the group of an item and a
/// level.
pub open spec fn level_group_added<T>(
    before: Map<u64, HashMap<u32, Vec<T>>>,
    after: Map<u64, HashMap<u32, Vec<T>>>,
    item_id: u64,
    level: u32,
    member: T,
) -> bool {
    &&& after.contains_key(item_id)
    &&& group_added(
        if before.contains_key(item_id) {
            before[item_id]@
        } else {
            Map::empty()
        },
        after[item_id]@,
        level,
        member,
    )
    &&& forall|other: u64|
        #![trigger after.contains_key(other)]
        #![trigger after[other]]
        other != item_id ==> (after.contains_key(other) == before.contains_key(other) && (
        before.contains_key(other) ==> after[other] == before[other]))
}

/// Adds a member to the group of an item and a level.
fn add_to_level_group<T>(
    groups: &mut HashMap<u64, HashMap<u32, Vec<T>>>,
    item_id: u64,
    level: u32,
    member: T,
)
    ensures
        level_group_added(old(groups)@, final(groups)@, item_id, level, member),
{
    let mut levels = match groups.remove(&item_id) {
        Some(levels) => levels,
        None => HashMap::new(),
    };
    add_to_group(&mut levels, level, member);
    groups.insert(item_id, levels);
}

/// The pet species of an item.
fn species(item: &Item, item_to_pet: &HashMap<u64, u32>) -> (species: Option<u32>)
    ensures
        species == species_spec(*item, item_to_pet@),
{
    match item.pet() {
        Some(pet) => Some(pet.species),
        None => match item_to_pet.get(&item.id) {
            Some(species) => Some(*species),
            None => None,
        },
    }
}

/// Decides `groups_fit`.
pub(crate) fn all_fit<K: Eq + Hash + Copy>(groups: &HashMap<K, Vec<(u64, u64)>>) -> (fit: bool)
    requires
        obeys_key_model::<K>(),
    ensures
        fit == groups_fit(groups@),
{
    for (key, series) in iter: groups.iter()
        invariant
            forall|i: int|
                0 <= i < iter.index() ==> series_within_reach(
                    groups@[*(#[trigger] iter.seq()[i]).0]@,
                ),
    {
        if !series_is_within_reach(series.as_slice()) {
            assert(groups@.contains_key(*key) && groups@[*key] == *series);
            return false;
        }
    }
    true
}

impl AuctionsSummary {
    /// Whether an auction counts: it can be bought, not only bid on.
    pub fn use_auction(auction: &Auction) -> (counts: bool)
        ensures
            counts == auction.is_buyable(),
    {
        auction.buyout.is_some() || auction.unit_price.is_some()
    }

    /// The price of an auction that counts: its buyout where it has one, else its unit price.
    pub fn auction_price(auction: &Auction) -> (price: u64)
        requires
            auction.is_buyable(),
        ensures
            Some(price) == auction.price_spec(),
    {
        match auction.buyout {
            Some(buyout) => buyout,
            None => auction.unit_price.unwrap(),
        }
    }

    /// Adds an auction of a pet, with its price and quantity, to the groups of its species.
    pub fn insert_pet_auctions(
        auction: usize,
        species_id: &u32,
        price: (u64, u64),
        pet_prices: &mut HashMap<u32, Vec<(u64, u64)>>,
        pet_auctions: &mut HashMap<u32, Vec<usize>>,
    )
        ensures
            group_added(old(pet_prices)@, final(pet_prices)@, *species_id, price),
            group_added(old(pet_auctions)@, final(pet_auctions)@, *species_id, auction),
    {
        add_to_group(pet_prices, *species_id, price);
        add_to_group(pet_auctions, *species_id, auction);
    }

    /// Gathers the auctions of a snapshot that can be bought: each under its item, and besides
    /// under its pet species, where it is a pet, or else under its item and level.
    pub fn gather(
        auctions: &Vec<Auction>,
        curve_points: &ItemLevelCurvePoints,
        db2_bonuses: &Db2ItemBonuses,
        base_ilvls: &HashMap<u64, u32>,
        item_to_pet: &HashMap<u64, u32>,
        equippable_items: &HashSet<u64>,
    ) -> (gathered: Gathered)
        requires
            curves_have_points(curve_points@),
        ensures
            gathered.gathers(
                auctions@,
                species_lookup(item_to_pet@),
                level_lookup(*db2_bonuses, base_ilvls@, curve_points@, equippable_items@),
            ),
    {
        let ghost species_of = species_lookup(item_to_pet@);
        let ghost level_of = level_lookup(
            *db2_bonuses,
            base_ilvls@,
            curve_points@,
            equippable_items@,
        );
        let mut gathered = Gathered {
            item_auctions: HashMap::new(),
            item_prices: HashMap::new(),
            pet_auctions: HashMap::new(),
            pet_prices: HashMap::new(),
            item_level_auctions: HashMap::new(),
            item_level_prices: HashMap::new(),
        };
        let mut i: usize = 0;
        while i < auctions.len()
            invariant
                i <= auctions.len(),
                curves_have_points(curve_points@),
                species_of == species_lookup(item_to_pet@),
                level_of == level_lookup(
                    *db2_bonuses,
                    base_ilvls@,
                    curve_points@,
                    equippable_items@,
                ),
                gathered.gathers(auctions@.take(i as int), species_of, level_of),
            decreases auctions.len() - i,
        {
            let auction = &auctions[i];
            let ghost before = gathered;
            let ghost earlier = auctions@.take(i as int);
            if AuctionsSummary::use_auction(auction) {
                let price = (AuctionsSummary::auction_price(auction), auction.quantity as u64);
                add_to_group(&mut gathered.item_prices, auction.item.id, price);
                add_to_group(&mut gathered.item_auctions, auction.item.id, i);
                match species(&auction.item, item_to_pet) {
                    Some(species) => {
                        AuctionsSummary::insert_pet_auctions(
                            i,
                            &species,
                            price,
                            &mut gathered.pet_prices,
                            &mut gathered.pet_auctions,
                        );
                    },
                    None => {
                        let is_equippable = equippable_items.contains(&auction.item.id);
                        let level = AuctionsSummary::resolve_item_level(
                            &auction.item,
                            is_equippable,
                            db2_bonuses,
                            base_ilvls,
                            curve_points,
                        );
                        add_to_level_group(
                            &mut gathered.item_level_prices,
                            auction.item.id,
                            level,
                            price,
                        );
                        add_to_level_group(
                            &mut gathered.item_level_auctions,
                            auction.item.id,
                            level,
                            i,
                        );
                    },
                }
            }
            proof {
                lemma_gathered_one_more(before, gathered, earlier, *auction, species_of, level_of);
                assert(auctions@.take(i + 1) =~= earlier.push(*auction));
            }
            i = i + 1;
        }
        proof {
            assert(auctions@.take(auctions.len() as int) =~= auctions@);
        }
        gathered
    }
}

/// How the groups change when an auction is counted: where it can be bought, it is added to
/// the group of its item, and besides to the group of its pet species, where it has one, or to
/// the group of its item and level; and where it cannot, nothing changes.
pub open spec fn counted(
    before: Gathered,
    after: Gathered,
    auction: Auction,
    index: usize,
    species_of: spec_fn(Item) -> Option<u32>,
    level_of: spec_fn(Item) -> u32,
) -> bool {
    if !auction.is_buyable() {
        after == before
    } else {
        &&& group_added(
            before.item_prices@,
            after.item_prices@,
            auction.item.id,
            price_pair(auction),
        )
        &&& group_added(before.item_auctions@, after.item_auctions@, auction.item.id, index)
        &&& match species_of(auction.item) {
            Some(species) => {
                &&& group_added(
                    before.pet_prices@,
                    after.pet_prices@,
                    species,
                    price_pair(auction),
                )
                &&& group_added(before.pet_auctions@, after.pet_auctions@, species, index)
                &&& after.item_level_prices == before.item_level_prices
                &&& after.item_level_auctions == before.item_level_auctions
            },
            None => {
                &&& level_group_added(
                    before.item_level_prices@,
                    after.item_level_prices@,
                    auction.item.id,
                    level_of(auction.item),
                    price_pair(auction),
                )
                &&& level_group_added(
                    before.item_level_auctions@,
                    after.item_level_auctions@,
                    auction.item.id,
                    level_of(auction.item),
                    index,
                )
                &&& after.pet_prices == before.pet_prices
                &&& after.pet_auctions == before.pet_auctions
            },
        }
    }
}

/// Groups that gather a snapshot gather the snapshot with one more auction once that auction is
/// counted.
proof fn lemma_gathered_one_more(
    before: Gathered,
    after: Gathered,
    earlier: Seq<Auction>,
    auction: Auction,
    species_of: spec_fn(Item) -> Option<u32>,
    level_of: spec_fn(Item) -> u32,
)
    requires
        before.gathers(earlier, species_of, level_of),
        earlier.len() < usize::MAX,
        counted(before, after, auction, earlier.len() as usize, species_of, level_of),
    ensures
        after.gathers(earlier.push(auction), species_of, level_of),
{
    let next = earlier.push(auction);
    assert(next.drop_last() =~= earlier);
    assert(next.last() == auction);
    assert forall|item_id: u64| #[trigger]
        holds_group(after.item_auctions@, item_id, chosen_indices(next, item_choice(item_id))) by {
        let members = chosen_indices(earlier, item_choice(item_id));
        assert(holds_group(before.item_auctions@, item_id, members));
        if members.len() == 0 {
            lemma_no_members(members);
        }
    }
    assert forall|item_id: u64| #[trigger]
        holds_group(after.item_prices@, item_id, chosen_prices(next, item_choice(item_id))) by {
        let members = chosen_prices(earlier, item_choice(item_id));
        assert(holds_group(before.item_prices@, item_id, members));
        if members.len() == 0 {
            lemma_no_members(members);
        }
    }
    assert forall|species: u32| #[trigger]
        holds_group(
            after.pet_auctions@,
            species,
            chosen_indices(next, pet_choice(species_of, species)),
        ) by {
        let members = chosen_indices(earlier, pet_choice(species_of, species));
        assert(holds_group(before.pet_auctions@, species, members));
        if members.len() == 0 {
            lemma_no_members(members);
        }
    }
    assert forall|species: u32| #[trigger]
        holds_group(
            after.pet_prices@,
            species,
            chosen_prices(next, pet_choice(species_of, species)),
        ) by {
        let members = chosen_prices(earlier, pet_choice(species_of, species));
        assert(holds_group(before.pet_prices@, species, members));
        if members.len() == 0 {
            lemma_no_members(members);
        }
    }
    assert forall|item_id: u64, level: u32| #[trigger]
        holds_level_group(
            after.item_level_auctions@,
            item_id,
            level,
            chosen_indices(next, level_choice(species_of, level_of, item_id, level)),
        ) by {
        let members = chosen_indices(earlier, level_choice(species_of, level_of, item_id, level));
        assert(holds_level_group(before.item_level_auctions@, item_id, level, members));
        if members.len() == 0 {
            lemma_no_members(members);
        }
    }
    assert forall|item_id: u64, level: u32| #[trigger]
        holds_level_group(
            after.item_level_prices@,
            item_id,
            level,
            chosen_prices(next, level_choice(species_of, level_of, item_id, level)),
        ) by {
        let members = chosen_prices(earlier, level_choice(species_of, level_of, item_id, level));
        assert(holds_level_group(before.item_level_prices@, item_id, level, members));
        if members.len() == 0 {
            lemma_no_members(members);
        }
    }
}

/// A sequence without members is the empty sequence.
pub proof fn lemma_no_members<T>(members: Seq<T>)
    requires
        members.len() == 0,
    ensures
        members == Seq::<T>::empty(),
{
    assert(members =~= Seq::<T>::empty());
}

/// What a choice picks: the auctions that it accepts, each once and in the order of the
/// snapshot, and with each its price and quantity.
pub proof fn lemma_chosen(auctions: Seq<Auction>, choice: spec_fn(Auction) -> bool)
    requires
        auctions.len() <= usize::MAX,
    ensures
        chosen_prices(auctions, choice).len() == chosen_indices(auctions, choice).len(),
        forall|k: int|
            0 <= k < chosen_indices(auctions, choice).len() ==> {
                let index = #[trigger] chosen_indices(auctions, choice)[k];
                &&& index < auctions.len()
                &&& choice(auctions[index as int])
                &&& chosen_prices(auctions, choice)[k] == price_pair(auctions[index as int])
            },
        forall|k: int, l: int|
            0 <= k < l < chosen_indices(auctions, choice).len() ==> chosen_indices(
                auctions,
                choice,
            )[k] < chosen_indices(auctions, choice)[l],
        forall|index: int|
            0 <= index < auctions.len() && choice(#[trigger] auctions[index]) ==> chosen_indices(
                auctions,
                choice,
            ).contains(index as usize),
    decreases auctions.len(),
{
    if auctions.len() > 0 {
        let earlier = auctions.drop_last();
        lemma_chosen(earlier, choice);
        let before = chosen_indices(earlier, choice);
        let now = chosen_indices(auctions, choice);
        assert forall|k: int| 0 <= k < now.len() implies {
            let index = #[trigger] now[k];
            &&& index < auctions.len()
            &&& choice(auctions[index as int])
            &&& chosen_prices(auctions, choice)[k] == price_pair(auctions[index as int])
        } by {
            if k < before.len() {
                assert(now[k] == before[k]);
                assert(earlier[before[k] as int] == auctions[before[k] as int]);
            }
        }
        assert forall|k: int, l: int| 0 <= k < l < now.len() implies now[k] < now[l] by {
            assert(now[k] == before[k]);
            if l < before.len() {
                assert(now[l] == before[l]);
            }
        }
        assert forall|index: int|
            0 <= index < auctions.len() && choice(#[trigger] auctions[index]) implies now.contains(
            index as usize,
        ) by {
            if index < earlier.len() {
                assert(earlier[index] == auctions[index]);
                assert(before.contains(index as usize));
                let k = choose|k: int| 0 <= k < before.len() && before[k] == index as usize;
                assert(now[k] == index as usize);
            } else {
                assert(now[now.len() - 1] == index as usize);
            }
        }
    }
}

/// An auction that cannot be bought is in no group.
pub proof fn lemma_bid_only_in_no_group(
    auctions: Seq<Auction>,
    species_of: spec_fn(Item) -> Option<u32>,
    level_of: spec_fn(Item) -> u32,
    index: usize,
)
    requires
        auctions.len() <= usize::MAX,
        index < auctions.len(),
        !auctions[index as int].is_buyable(),
    ensures
        forall|item_id: u64|
            !(#[trigger] chosen_indices(auctions, item_choice(item_id))).contains(index),
        forall|species: u32|
            !(#[trigger] chosen_indices(auctions, pet_choice(species_of, species))).contains(index),
        forall|item_id: u64, level: u32|
            !(#[trigger] chosen_indices(
                auctions,
                level_choice(species_of, level_of, item_id, level),
            )).contains(index),
{
    assert forall|item_id: u64|
        !(#[trigger] chosen_indices(auctions, item_choice(item_id))).contains(index) by {
        lemma_chosen(auctions, item_choice(item_id));
    }
    assert forall|species: u32|
        !(#[trigger] chosen_indices(auctions, pet_choice(species_of, species))).contains(
            index,
        ) by {
        lemma_chosen(auctions, pet_choice(species_of, species));
    }
    assert forall|item_id: u64, level: u32|
        !(#[trigger] chosen_indices(
            auctions,
            level_choice(species_of, level_of, item_id, level),
        )).contains(index) by {
        lemma_chosen(auctions, level_choice(species_of, level_of, item_id, level));
    }
}

/// An auction that can be bought is in the group of its item, and besides in one more group:
/// that of its pet species, where its item has one, or that of its item and level.
pub proof fn lemma_buyable_in_two_groups(
    auctions: Seq<Auction>,
    species_of: spec_fn(Item) -> Option<u32>,
    level_of: spec_fn(Item) -> u32,
    index: usize,
)
    requires
        auctions.len() <= usize::MAX,
        index < auctions.len(),
        auctions[index as int].is_buyable(),
    ensures
        forall|item_id: u64|
            (#[trigger] chosen_indices(auctions, item_choice(item_id))).contains(index) <==> item_id
                == auctions[index as int].item.id,
        forall|species: u32|
            (#[trigger] chosen_indices(auctions, pet_choice(species_of, species))).contains(index)
                <==> species_of(auctions[index as int].item) == Some(species),
        forall|item_id: u64, level: u32|
            (#[trigger] chosen_indices(
                auctions,
                level_choice(species_of, level_of, item_id, level),
            )).contains(index) <==> (species_of(auctions[index as int].item) is None && item_id
                == auctions[index as int].item.id && level == level_of(
                auctions[index as int].item,
            )),
{
    assert forall|item_id: u64|
        (#[trigger] chosen_indices(auctions, item_choice(item_id))).contains(index) <==> item_id
            == auctions[index as int].item.id by {
        lemma_chosen(auctions, item_choice(item_id));
    }
    assert forall|species: u32|
        (#[trigger] chosen_indices(auctions, pet_choice(species_of, species))).contains(index)
            <==> species_of(auctions[index as int].item) == Some(species) by {
        lemma_chosen(auctions, pet_choice(species_of, species));
    }
    assert forall|item_id: u64, level: u32|
        (#[trigger] chosen_indices(
            auctions,
            level_choice(species_of, level_of, item_id, level),
        )).contains(index) <==> (species_of(auctions[index as int].item) is None && item_id
            == auctions[index as int].item.id && level == level_of(
            auctions[index as int].item,
        )) by {
        lemma_chosen(auctions, level_choice(species_of, level_of, item_id, level));
    }
}

/// A choice that picks no auction that a wider choice leaves out picks no more units, and no
/// other prices.
pub proof fn lemma_narrower_choice(
    auctions: Seq<Auction>,
    narrow: spec_fn(Auction) -> bool,
    wide: spec_fn(Auction) -> bool,
)
    requires
        forall|auction: Auction| #[trigger] narrow(auction) ==> wide(auction),
    ensures
        quantity_total(chosen_prices(auctions, narrow)) <= quantity_total(
            chosen_prices(auctions, wide),
        ),
        forall|i: int|
            0 <= i < chosen_prices(auctions, narrow).len() ==> chosen_prices(
                auctions,
                wide,
            ).contains(#[trigger] chosen_prices(auctions, narrow)[i]),
    decreases auctions.len(),
{
    if auctions.len() > 0 {
        let earlier = auctions.drop_last();
        lemma_narrower_choice(earlier, narrow, wide);
        let few = chosen_prices(auctions, narrow);
        let many = chosen_prices(auctions, wide);
        let few_before = chosen_prices(earlier, narrow);
        let many_before = chosen_prices(earlier, wide);
        assert forall|i: int| 0 <= i < few.len() implies many.contains(#[trigger] few[i]) by {
            if i < few_before.len() {
                assert(few[i] == few_before[i]);
                assert(many_before.contains(few_before[i]));
                let j = choose|j: int| 0 <= j < many_before.len() && many_before[j] == few[i];
                assert(many[j] == few[i]);
            } else {
                assert(narrow(auctions.last()));
                assert(many[many.len() - 1] == few[i]);
            }
        }
        if narrow(auctions.last()) {
            assert(few.drop_last() =~= few_before);
            assert(many.drop_last() =~= many_before);
        } else if wide(auctions.last()) {
            assert(many.drop_last() =~= many_before);
        }
    }
}

/// Where the prices of each item are within reach, so are those of each level of each item.
pub proof fn lemma_levels_within_reach(
    auctions: Seq<Auction>,
    species_of: spec_fn(Item) -> Option<u32>,
    level_of: spec_fn(Item) -> u32,
    item_id: u64,
    level: u32,
)
    requires
        series_within_reach(chosen_prices(auctions, item_choice(item_id))),
    ensures
        series_within_reach(
            chosen_prices(auctions, level_choice(species_of, level_of, item_id, level)),
        ),
{
    let narrow = level_choice(species_of, level_of, item_id, level);
    let wide = item_choice(item_id);
    lemma_narrower_choice(auctions, narrow, wide);
    let few = chosen_prices(auctions, narrow);
    let many = chosen_prices(auctions, wide);
    assert forall|i: int| 0 <= i < few.len() implies exists|j: int|
        0 <= j < many.len() && (#[trigger] few[i]).0 == many[j].0 by {
        assert(many.contains(few[i]));
        let j = choose|j: int| 0 <= j < many.len() && many[j] == few[i];
        assert(few[i].0 == many[j].0);
    }
    if quantity_total(few) >= 2 {
        lemma_part_within_limits(few, many);
    }
}

} // verus!
