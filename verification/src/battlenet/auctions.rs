//! Auctions as the auction house lists them.

use vstd::prelude::*;

verus! {

/// All auctions of one connected realm at one point in time.
#[derive(Debug)]
pub struct AuctionFile {
    /// The auctions, in the order in which they were listed.
    pub auctions: Vec<Auction>,
}

/// One auction.
///
/// Of the three prices, an auction has a unit price alone, a buyout alone, a bid alone, or a bid
/// and a buyout.
#[derive(Debug)]
pub struct Auction {
    /// Identifies the auction within its connected realm.
    pub id: u64,
    /// The number of units on sale, at least one.
    pub quantity: u16,
    /// What is on sale.
    pub item: Item,
    /// The price of one unit.
    pub unit_price: Option<u64>,
    /// The price at which the auction can be bought at once.
    pub buyout: Option<u64>,
    /// The highest bid so far.
    pub bid: Option<u64>,
    /// How long the auction still runs.
    pub time_left: TimeLeft,
}

/// The item of an auction.
#[derive(Debug)]
pub struct Item {
    /// The item's id in the game.
    pub id: u64,
    /// Where the item was created.
    pub context: Option<u16>,
    /// The bonuses on the item, such as changes to its level.
    pub bonus_lists: Option<Vec<u32>>,
    /// The modifiers on the item. One of type 9 holds the level of the player for whom the item
    /// dropped.
    pub modifiers: Option<Vec<ItemModifier>>,
    /// The breed of the pet, where the item is a caged pet.
    pub pet_breed_id: Option<u32>,
    /// The level of the pet, where the item is a caged pet.
    pub pet_level: Option<u8>,
    /// The quality of the pet, where the item is a caged pet.
    pub pet_quality_id: Option<u16>,
    /// The species of the pet, where the item is a caged pet.
    pub pet_species_id: Option<u32>,
}

/// What is known of a caged pet.
#[derive(Clone, Copy, Debug, PartialEq, Eq, Structural)]
pub struct AuctionPet {
    /// The breed of the pet.
    pub breed: u32,
    /// The quality of the pet.
    pub quality: u16,
    /// The species of the pet.
    pub species: u32,
    /// The level of the pet.
    pub level: u8,
}

/// A modifier on an item.
#[derive(Clone, Copy, Debug, PartialEq, Eq, Structural)]
pub struct ItemModifier {
    /// The kind of modifier.
    pub modifier_type: u16,
    /// Its value.
    pub value: u64,
}

/// How long an auction still runs.
#[derive(Clone, Copy, Debug, PartialEq, Eq, Structural)]
pub enum TimeLeft {
    /// More than twelve hours.
    VeryLong,
    /// Between two and twelve hours.
    Long,
    /// Between half an hour and two hours.
    Medium,
    /// Less than half an hour.
    Short,
}

impl Item {
    /// The pet in the cage: there is one where all four pet fields are present.
    pub open spec fn pet_spec(&self) -> Option<AuctionPet> {
        if self.pet_breed_id is Some && self.pet_level is Some && self.pet_quality_id is Some
            && self.pet_species_id is Some {
            Some(
                AuctionPet {
                    breed: self.pet_breed_id->0,
                    quality: self.pet_quality_id->0,
                    species: self.pet_species_id->0,
                    level: self.pet_level->0,
                },
            )
        } else {
            None
        }
    }

    /// The pet that the item is, if it is a caged pet.
    pub fn pet(&self) -> (pet: Option<AuctionPet>)
        ensures
            pet == self.pet_spec(),
    {
        match (self.pet_breed_id, self.pet_level, self.pet_quality_id, self.pet_species_id) {
            (Some(breed), Some(level), Some(quality), Some(species)) => Some(
                AuctionPet { breed, quality, species, level },
            ),
            _ => None,
        }
    }
}

impl Auction {
    /// Whether the auction is as the auction house lists auctions: it has at least one unit, and
    /// of the three prices a unit price alone, a buyout alone, a bid alone, or a bid and a buyout.
    pub open spec fn is_well_formed(&self) -> bool {
        &&& self.quantity > 0
        &&& if self.unit_price is Some {
            self.buyout is None && self.bid is None
        } else {
            self.buyout is Some || self.bid is Some
        }
    }

    /// Decides `is_well_formed`.
    pub fn is_valid(&self) -> (valid: bool)
        ensures
            valid == self.is_well_formed(),
    {
        self.quantity > 0 && if self.unit_price.is_some() {
            self.buyout.is_none() && self.bid.is_none()
        } else {
            self.buyout.is_some() || self.bid.is_some()
        }
    }

    /// Whether the auction can be bought: it has a buyout or a unit price.
    pub open spec fn is_buyable(&self) -> bool {
        self.buyout is Some || self.unit_price is Some
    }

    /// The price at which the auction can be bought: the buyout where there is one, else the
    /// unit price.
    pub open spec fn price_spec(&self) -> Option<u64> {
        if self.buyout is Some {
            self.buyout
        } else {
            self.unit_price
        }
    }

    /// The price at which the auction can be bought; `None` for an auction that takes bids only.
    pub fn price(&self) -> (price: Option<u64>)
        ensures
            price == self.price_spec(),
            price is Some <==> self.is_buyable(),
    {
        match self.buyout {
            Some(buyout) => Some(buyout),
            None => self.unit_price,
        }
    }
}

} // verus!
