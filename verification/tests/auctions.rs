use etherealpost::auctions::{Auction, Item, TimeLeft};

fn item(
    pet_species_id: Option<u32>,
    pet_quality_id: Option<u16>,
    pet_level: Option<u8>,
    pet_breed_id: Option<u32>,
) -> Item {
    Item {
        id: 0,
        context: None,
        bonus_lists: None,
        modifiers: None,
        pet_species_id,
        pet_quality_id,
        pet_level,
        pet_breed_id,
    }
}

fn auction(unit_price: Option<u64>, buyout: Option<u64>, bid: Option<u64>) -> Auction {
    Auction {
        id: 1,
        quantity: 1,
        item: item(None, None, None, None),
        unit_price,
        buyout,
        bid,
        time_left: TimeLeft::Medium,
    }
}

#[test]
fn item_with_all_pet_fields_returns_pet() {
    let item = Item {
        id: 0,
        context: None,
        bonus_lists: None,
        modifiers: None,
        pet_species_id: Some(1),
        pet_quality_id: Some(2),
        pet_level: Some(3),
        pet_breed_id: Some(4),
    };
    let pet = item.pet().unwrap();

    assert_eq!(1, pet.species);
    assert_eq!(2, pet.quality);
    assert_eq!(3, pet.level);
    assert_eq!(4, pet.breed);
}

#[test]
fn item_with_missing_pet_fields_returns_none() {
    let item = Item {
        id: 0,
        context: None,
        bonus_lists: None,
        modifiers: None,
        pet_species_id: Some(1),
        pet_quality_id: Some(2),
        pet_level: None,
        pet_breed_id: Some(4),
    };
    assert!(item.pet().is_none());
}

#[test]
fn item_with_any_one_pet_field_missing_returns_none() {
    assert!(item(None, Some(2), Some(3), Some(4)).pet().is_none());
    assert!(item(Some(1), None, Some(3), Some(4)).pet().is_none());
    assert!(item(Some(1), Some(2), None, Some(4)).pet().is_none());
    assert!(item(Some(1), Some(2), Some(3), None).pet().is_none());
    assert!(item(None, None, None, None).pet().is_none());
    assert!(item(Some(1), Some(2), Some(3), Some(4)).pet().is_some());
}

#[test]
fn auction_price_prefers_the_buyout() {
    assert_eq!(Some(7), auction(Some(7), None, None).price());
    assert_eq!(Some(9), auction(None, Some(9), None).price());
    assert_eq!(Some(9), auction(None, Some(9), Some(5)).price());
    assert_eq!(Some(9), auction(Some(7), Some(9), None).price());
}

#[test]
fn auction_with_a_bid_only_has_no_price() {
    assert_eq!(None, auction(None, None, Some(5)).price());
    assert_eq!(None, auction(None, None, None).price());
}

#[test]
fn auction_is_valid_with_one_of_the_four_kinds_of_prices() {
    assert!(auction(Some(7), None, None).is_valid());
    assert!(auction(None, Some(9), None).is_valid());
    assert!(auction(None, None, Some(5)).is_valid());
    assert!(auction(None, Some(9), Some(5)).is_valid());
    assert!(!auction(None, None, None).is_valid());
    assert!(!auction(Some(7), Some(9), None).is_valid());
    assert!(!auction(Some(7), None, Some(5)).is_valid());
    assert!(!auction(Some(7), Some(9), Some(5)).is_valid());
    let mut empty = auction(Some(7), None, None);
    empty.quantity = 0;
    assert!(!empty.is_valid());
}
