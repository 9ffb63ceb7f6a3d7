use etherealpost::auctions::{Auction, AuctionFile, Item, ItemModifier, TimeLeft};
use etherealpost::parse::summary::ItemSummary;
use etherealpost::parse::{AuctionsSummary, ItemLevelCurve, ItemLevelCurvePoints};
use etherealpost::stats::{Ratio, StdDev};
use etherealpost::wow::data_tables::{Db2ItemBonus, Db2ItemBonuses};
use std::collections::{HashMap, HashSet};

fn bonus(parent: u32, type_id: u16, value0: i32, value3: i32) -> Db2ItemBonus {
    Db2ItemBonus {
        id: parent,
        value0,
        value1: 0,
        value2: 0,
        value3,
        parent_item_bonus_list_id: parent,
        type_id,
        order_index: 0,
    }
}

fn bonuses() -> Db2ItemBonuses {
    Db2ItemBonuses::from_rows(&[
        bonus(58, 1, -2, 0),
        bonus(72, 1, 40, 0),
        bonus(100, 11, 0, 5),
        bonus(101, 13, 0, 9),
        bonus(102, 11, 0, 777),
        bonus(103, 1, -500, 0),
        bonus(104, 13, 0, 0),
    ])
}

fn curves() -> ItemLevelCurvePoints {
    let mut curves = HashMap::new();
    curves.insert(
        5,
        ItemLevelCurve::from_points(&[
            (1_000, 6_000),
            (25_000, 31_000),
            (26_000, 32_000),
            (27_000, 33_000),
        ]),
    );
    curves.insert(9, ItemLevelCurve::from_points(&[(0, 99_000)]));
    curves
}

fn base_ilvls() -> HashMap<u64, u32> {
    let mut base_ilvls = HashMap::new();
    base_ilvls.insert(10, 50);
    base_ilvls.insert(11, 60);
    base_ilvls
}

fn item_to_pet() -> HashMap<u64, u32> {
    let mut item_to_pet = HashMap::new();
    item_to_pet.insert(20, 300);
    item_to_pet
}

fn equippable() -> HashSet<u64> {
    let mut equippable = HashSet::new();
    equippable.insert(10);
    equippable.insert(11);
    equippable.insert(12);
    equippable
}

fn item(id: u64, bonus_lists: Option<Vec<u32>>, modifiers: Option<Vec<(u16, u64)>>) -> Item {
    Item {
        id,
        context: None,
        bonus_lists,
        modifiers: modifiers.map(|modifiers| {
            modifiers
                .iter()
                .map(|(modifier_type, value)| ItemModifier {
                    modifier_type: *modifier_type,
                    value: *value,
                })
                .collect()
        }),
        pet_breed_id: None,
        pet_level: None,
        pet_quality_id: None,
        pet_species_id: None,
    }
}

fn cage(species: u32) -> Item {
    Item {
        id: 82800,
        context: None,
        bonus_lists: None,
        modifiers: None,
        pet_breed_id: Some(3),
        pet_level: Some(25),
        pet_quality_id: Some(2),
        pet_species_id: Some(species),
    }
}

fn auction(
    id: u64,
    quantity: u16,
    item: Item,
    unit_price: Option<u64>,
    buyout: Option<u64>,
    bid: Option<u64>,
) -> Auction {
    Auction {
        id,
        quantity,
        item,
        unit_price,
        buyout,
        bid,
        time_left: TimeLeft::Long,
    }
}

fn level(item: &Item, is_equippable: bool) -> u32 {
    AuctionsSummary::resolve_item_level(item, is_equippable, &bonuses(), &base_ilvls(), &curves())
}

fn no_std_dev() -> StdDev {
    StdDev {
        variance: Ratio {
            numerator: 0,
            denominator: 1,
        },
    }
}

fn snapshot() -> AuctionFile {
    AuctionFile {
        auctions: vec![
            auction(1, 2, item(10, Some(vec![58, 72]), None), Some(100), None, None),
            auction(2, 1, item(10, Some(vec![58, 72]), None), None, Some(300), Some(50)),
            auction(3, 5, item(10, Some(vec![58, 72]), None), None, None, Some(1)),
            auction(4, 1, item(10, None, None), None, Some(200), None),
            auction(5, 1, item(20, None, None), None, Some(1000), None),
            auction(6, 1, cage(300), None, Some(3000), None),
            auction(7, 1, cage(301), None, Some(500), None),
            auction(8, 10, item(30, Some(vec![58]), None), Some(5), None, None),
            auction(9, 0, item(40, None, None), None, Some(10), None),
        ],
    }
}

fn summary(file: &AuctionFile) -> AuctionsSummary {
    AuctionsSummary::from_auction_file(
        file,
        &curves(),
        &bonuses(),
        &base_ilvls(),
        &item_to_pet(),
        &equippable(),
    )
}

#[test]
fn use_auction_needs_a_buyout_or_a_unit_price() {
    assert!(AuctionsSummary::use_auction(&auction(
        1,
        1,
        item(1, None, None),
        Some(5),
        None,
        None
    )));
    assert!(AuctionsSummary::use_auction(&auction(
        1,
        1,
        item(1, None, None),
        None,
        Some(5),
        Some(3)
    )));
    assert!(!AuctionsSummary::use_auction(&auction(
        1,
        1,
        item(1, None, None),
        None,
        None,
        Some(3)
    )));
}

#[test]
fn auction_price_is_the_buyout_before_the_unit_price() {
    assert_eq!(
        9,
        AuctionsSummary::auction_price(&auction(
            1,
            1,
            item(1, None, None),
            Some(5),
            Some(9),
            None
        ))
    );
    assert_eq!(
        5,
        AuctionsSummary::auction_price(&auction(
            1,
            1,
            item(1, None, None),
            Some(5),
            None,
            None
        ))
    );
}

#[test]
fn drop_level_is_the_first_modifier_of_type_9() {
    assert_eq!(None, AuctionsSummary::drop_level(&item(1, None, None)));
    assert_eq!(
        None,
        AuctionsSummary::drop_level(&item(1, None, Some(vec![])))
    );
    assert_eq!(
        None,
        AuctionsSummary::drop_level(&item(1, None, Some(vec![(1, 3), (10, 4)])))
    );
    assert_eq!(
        Some(7),
        AuctionsSummary::drop_level(&item(1, None, Some(vec![(1, 3), (9, 7), (9, 26)])))
    );
    assert_eq!(
        Some(7),
        AuctionsSummary::drop_level(&item(1, None, Some(vec![(9, (1u64 << 32) + 7)])))
    );
}

#[test]
fn find_curve_id_and_adjustment() {
    let table = bonuses();
    assert_eq!(
        None,
        AuctionsSummary::find_curve_id(&item(1, None, None), &table)
    );
    assert_eq!(
        Some(9),
        AuctionsSummary::find_curve_id(&item(1, Some(vec![100, 58, 101]), None), &table)
    );
    assert_eq!(
        None,
        AuctionsSummary::find_ilvl_adjustment(&item(1, None, None), &table)
    );
    assert_eq!(
        None,
        AuctionsSummary::find_ilvl_adjustment(&item(1, Some(vec![100]), None), &table)
    );
    assert_eq!(
        Some(38),
        AuctionsSummary::find_ilvl_adjustment(&item(1, Some(vec![58, 100, 72]), None), &table)
    );
}

#[test]
fn resolve_item_level_on_a_curve() {
    assert_eq!(12, level(&item(10, Some(vec![100]), Some(vec![(9, 7)])), true));
    assert_eq!(32, level(&item(10, Some(vec![100]), Some(vec![(9, 26)])), true));
    assert_eq!(33, level(&item(10, Some(vec![100]), Some(vec![(9, 60)])), true));
}

#[test]
fn resolve_item_level_takes_the_highest_curve_id() {
    assert_eq!(
        99,
        level(&item(10, Some(vec![100, 101]), Some(vec![(9, 7)])), true)
    );
    assert_eq!(
        99,
        level(&item(10, Some(vec![101, 100]), Some(vec![(9, 7)])), true)
    );
}

#[test]
fn resolve_item_level_curve_before_adjustment() {
    assert_eq!(
        12,
        level(&item(10, Some(vec![58, 100, 72]), Some(vec![(9, 7)])), true)
    );
    // A curve id stands in the way of the adjustment even where it leads nowhere.
    assert_eq!(50, level(&item(10, Some(vec![58, 100, 72]), None), true));
}

#[test]
fn resolve_item_level_with_curve_id_0() {
    // The curve id 0 is a curve id: with no such curve the level is the base level, and the
    // adjustments stay out.
    assert_eq!(
        Some(0),
        AuctionsSummary::find_curve_id(&item(10, Some(vec![104]), None), &bonuses())
    );
    assert_eq!(
        50,
        level(&item(10, Some(vec![104, 72]), Some(vec![(9, 7)])), true)
    );
    assert_eq!(50, level(&item(10, Some(vec![72, 104]), None), true));
    // A higher curve id goes before it.
    assert_eq!(
        12,
        level(&item(10, Some(vec![104, 100]), Some(vec![(9, 7)])), true)
    );
    let mut curves = curves();
    curves.insert(0, ItemLevelCurve::from_points(&[(0, 77_000)]));
    assert_eq!(
        77,
        AuctionsSummary::resolve_item_level(
            &item(10, Some(vec![104, 72]), Some(vec![(9, 7)])),
            true,
            &bonuses(),
            &base_ilvls(),
            &curves
        )
    );
}

#[test]
fn resolve_item_level_falls_back_to_the_base_level() {
    assert_eq!(50, level(&item(10, Some(vec![100]), None), true));
    assert_eq!(50, level(&item(10, Some(vec![100]), Some(vec![(1, 7)])), true));
    assert_eq!(50, level(&item(10, Some(vec![102]), Some(vec![(9, 7)])), true));
    assert_eq!(50, level(&item(10, None, Some(vec![(9, 7)])), true));
    assert_eq!(50, level(&item(10, Some(vec![1, 2]), None), true));
    assert_eq!(60, level(&item(11, None, None), true));
    assert_eq!(1, level(&item(12, None, None), true));
}

#[test]
fn resolve_item_level_adds_the_adjustments() {
    assert_eq!(48, level(&item(10, Some(vec![58]), None), true));
    assert_eq!(88, level(&item(10, Some(vec![58, 72]), None), true));
    assert_eq!(41, level(&item(12, Some(vec![72]), None), true));
}

#[test]
fn resolve_item_level_is_at_least_1() {
    assert_eq!(1, level(&item(10, Some(vec![103]), None), true));
    assert_eq!(1, level(&item(12, Some(vec![58]), None), true));
}

#[test]
fn resolve_item_level_of_what_cannot_be_equipped() {
    assert_eq!(
        50,
        level(&item(10, Some(vec![58, 100]), Some(vec![(9, 7)])), false)
    );
    assert_eq!(1, level(&item(30, Some(vec![72]), None), false));
}

#[test]
fn summary_groups_auctions_by_item() {
    let file = snapshot();
    let summary = summary(&file);
    assert_eq!(5, summary.item_auctions.len());
    assert_eq!(vec![0, 1, 3], summary.item_auctions[&10]);
    assert_eq!(vec![4], summary.item_auctions[&20]);
    assert_eq!(vec![5, 6], summary.item_auctions[&82800]);
    assert_eq!(vec![7], summary.item_auctions[&30]);
    assert_eq!(vec![8], summary.item_auctions[&40]);
}

#[test]
fn summary_leaves_out_auctions_with_a_bid_only() {
    let file = AuctionFile {
        auctions: vec![
            auction(1, 5, item(10, None, None), None, None, Some(1)),
            auction(2, 5, cage(300), None, None, Some(1)),
        ],
    };
    let summary = summary(&file);
    assert!(summary.item_auctions.is_empty());
    assert!(summary.item_summaries.is_empty());
    assert!(summary.item_level_auctions.is_empty());
    assert!(summary.item_level_summaries.is_empty());
    assert!(summary.pet_auctions.is_empty());
    assert!(summary.pet_summaries.is_empty());
}

#[test]
fn summary_of_no_auctions() {
    let file = AuctionFile { auctions: vec![] };
    let summary = summary(&file);
    assert!(summary.item_auctions.is_empty());
    assert!(summary.item_summaries.is_empty());
    assert!(summary.item_level_auctions.is_empty());
    assert!(summary.item_level_summaries.is_empty());
    assert!(summary.pet_auctions.is_empty());
    assert!(summary.pet_summaries.is_empty());
}

#[test]
fn summary_groups_pets_by_species() {
    let file = snapshot();
    let summary = summary(&file);
    assert_eq!(2, summary.pet_auctions.len());
    assert_eq!(vec![4, 5], summary.pet_auctions[&300]);
    assert_eq!(vec![6], summary.pet_auctions[&301]);
    assert_eq!(2, summary.pet_summaries.len());
    assert_eq!(
        ItemSummary {
            market_price: 1000,
            std_dev: StdDev {
                variance: Ratio {
                    numerator: 4_000_000,
                    denominator: 4
                }
            },
            min_buyout: 1000,
            total_qty: 2,
            num_auctions: 2,
        },
        summary.pet_summaries[&300]
    );
    assert_eq!(
        ItemSummary {
            market_price: 500,
            std_dev: no_std_dev(),
            min_buyout: 500,
            total_qty: 1,
            num_auctions: 1,
        },
        summary.pet_summaries[&301]
    );
}

#[test]
fn summary_groups_other_items_by_level() {
    let file = snapshot();
    let summary = summary(&file);
    assert_eq!(3, summary.item_level_auctions.len());
    assert_eq!(2, summary.item_level_auctions[&10].len());
    assert_eq!(vec![0, 1], summary.item_level_auctions[&10][&88]);
    assert_eq!(vec![3], summary.item_level_auctions[&10][&50]);
    assert_eq!(1, summary.item_level_auctions[&30].len());
    assert_eq!(vec![7], summary.item_level_auctions[&30][&1]);
    assert_eq!(vec![8], summary.item_level_auctions[&40][&1]);
    assert!(!summary.item_level_auctions.contains_key(&20));
    assert!(!summary.item_level_auctions.contains_key(&82800));

    assert_eq!(2, summary.item_level_summaries.len());
    assert_eq!(2, summary.item_level_summaries[&10].len());
    assert_eq!(
        ItemSummary {
            market_price: 100,
            std_dev: StdDev {
                variance: Ratio {
                    // 3 * (2 * 100^2 + 300^2) - 500^2
                    numerator: 80_000,
                    denominator: 9
                }
            },
            min_buyout: 100,
            total_qty: 3,
            num_auctions: 2,
        },
        summary.item_level_summaries[&10][&88]
    );
    assert_eq!(
        ItemSummary {
            market_price: 200,
            std_dev: no_std_dev(),
            min_buyout: 200,
            total_qty: 1,
            num_auctions: 1,
        },
        summary.item_level_summaries[&10][&50]
    );
    assert_eq!(
        ItemSummary {
            market_price: 5,
            std_dev: StdDev {
                variance: Ratio {
                    numerator: 0,
                    denominator: 100
                }
            },
            min_buyout: 5,
            total_qty: 10,
            num_auctions: 1,
        },
        summary.item_level_summaries[&30][&1]
    );
}

#[test]
fn summary_of_each_item() {
    let file = snapshot();
    let summary = summary(&file);
    assert_eq!(4, summary.item_summaries.len());
    assert_eq!(
        ItemSummary {
            market_price: 100,
            std_dev: StdDev {
                variance: Ratio {
                    // 4 * (2 * 100^2 + 300^2 + 200^2) - 700^2
                    numerator: 110_000,
                    denominator: 16
                }
            },
            min_buyout: 100,
            total_qty: 4,
            num_auctions: 3,
        },
        summary.item_summaries[&10]
    );
    assert_eq!(1000, summary.item_summaries[&20].market_price);
    assert_eq!(
        ItemSummary {
            market_price: 500,
            std_dev: StdDev {
                variance: Ratio {
                    numerator: 6_250_000,
                    denominator: 4
                }
            },
            min_buyout: 500,
            total_qty: 2,
            num_auctions: 2,
        },
        summary.item_summaries[&82800]
    );
    assert_eq!(5, summary.item_summaries[&30].market_price);
}

#[test]
fn summary_has_no_statistics_for_a_group_without_units() {
    let file = snapshot();
    let summary = summary(&file);
    assert!(summary.item_auctions.contains_key(&40));
    assert!(!summary.item_summaries.contains_key(&40));
    assert!(summary.item_level_auctions[&40].contains_key(&1));
    assert!(!summary.item_level_summaries.contains_key(&40));
}

#[test]
fn summary_statistics_are_those_of_the_price_functions() {
    let mut auctions = Vec::new();
    let pairs: [(u64, u16); 7] = [
        (10000, 3),
        (40000, 1),
        (50000, 1),
        (50000, 9),
        (54500, 15),
        (60000, 5),
        (150000, 2),
    ];
    for (i, (price, quantity)) in pairs.iter().enumerate() {
        auctions.push(auction(
            i as u64,
            *quantity,
            item(10, None, None),
            Some(*price),
            None,
            None,
        ));
    }
    let file = AuctionFile { auctions };
    let summary = summary(&file);
    let statistics = summary.item_summaries[&10];
    assert_eq!(48571, statistics.market_price);
    assert_eq!(10000, statistics.min_buyout);
    assert_eq!(36, statistics.total_qty);
    assert_eq!(7, statistics.num_auctions);
    assert_eq!(statistics, summary.item_level_summaries[&10][&50]);
}

#[test]
fn try_from_auction_file_gives_the_same_summary() {
    let file = snapshot();
    let tried = AuctionsSummary::try_from_auction_file(
        &file,
        &curves(),
        &bonuses(),
        &base_ilvls(),
        &item_to_pet(),
        &equippable(),
    )
    .unwrap();
    let summary = summary(&file);
    assert_eq!(summary.item_auctions, tried.item_auctions);
    assert_eq!(summary.item_summaries, tried.item_summaries);
    assert_eq!(summary.item_level_auctions, tried.item_level_auctions);
    assert_eq!(summary.item_level_summaries, tried.item_level_summaries);
    assert_eq!(summary.pet_auctions, tried.pet_auctions);
    assert_eq!(summary.pet_summaries, tried.pet_summaries);
}

#[test]
fn try_from_auction_file_gives_up_on_prices_beyond_the_limits() {
    let file = AuctionFile {
        auctions: vec![
            auction(1, 1, item(10, None, None), Some(5), None, None),
            auction(2, 2, item(11, None, None), Some(u64::MAX / 4), None, None),
        ],
    };
    assert!(AuctionsSummary::try_from_auction_file(
        &file,
        &curves(),
        &bonuses(),
        &base_ilvls(),
        &item_to_pet(),
        &equippable(),
    )
    .is_none());
    let file = AuctionFile {
        auctions: vec![
            auction(1, 1, cage(300), Some(5), None, None),
            auction(2, 1, item(20, None, None), Some(u64::MAX / 4), None, None),
        ],
    };
    assert!(AuctionsSummary::try_from_auction_file(
        &file,
        &curves(),
        &bonuses(),
        &base_ilvls(),
        &item_to_pet(),
        &equippable(),
    )
    .is_none());
}

#[test]
fn try_from_auction_file_gives_up_on_a_curve_without_points() {
    let mut curves = curves();
    curves.insert(11, ItemLevelCurve::from_points(&[]));
    assert!(!curves[&11].has_points());
    assert!(curves[&5].has_points());
    assert!(AuctionsSummary::try_from_auction_file(
        &snapshot(),
        &curves,
        &bonuses(),
        &base_ilvls(),
        &item_to_pet(),
        &equippable(),
    )
    .is_none());
}

#[test]
fn insert_item_summary_keeps_what_it_does_not_replace() {
    let mut prices: HashMap<u32, Vec<(u64, u64)>> = HashMap::new();
    prices.insert(1, vec![(7, 1)]);
    prices.insert(2, vec![(9, 0)]);
    let kept = ItemSummary {
        market_price: 1,
        std_dev: no_std_dev(),
        min_buyout: 1,
        total_qty: 1,
        num_auctions: 1,
    };
    let mut items: HashMap<u32, ItemSummary> = HashMap::new();
    items.insert(1, kept);
    items.insert(2, kept);
    items.insert(3, kept);
    AuctionsSummary::insert_item_summary(&prices, &mut items);
    assert_eq!(3, items.len());
    assert_eq!(7, items[&1].market_price);
    assert_eq!(kept, items[&2]);
    assert_eq!(kept, items[&3]);
}

#[test]
fn summary_of_a_single_unit_however_dear() {
    let file = AuctionFile {
        auctions: vec![auction(1, 1, item(10, None, None), Some(u64::MAX), None, None)],
    };
    let summary = AuctionsSummary::try_from_auction_file(
        &file,
        &curves(),
        &bonuses(),
        &base_ilvls(),
        &item_to_pet(),
        &equippable(),
    )
    .unwrap();
    assert_eq!(
        ItemSummary {
            market_price: u64::MAX,
            std_dev: no_std_dev(),
            min_buyout: u64::MAX,
            total_qty: 1,
            num_auctions: 1,
        },
        summary.item_summaries[&10]
    );
}
