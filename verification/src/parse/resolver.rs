//! The level of an item, resolved from its bonuses, the level at which it dropped, and its base
//! level.

use crate::battlenet::auctions::{Item, ItemModifier};
use crate::parse::item_level::{calc_ilvl_spec, ItemLevelCurve, ItemLevelCurvePoints};
use crate::parse::summary::AuctionsSummary;
use crate::wow::data_tables::item_bonus::{adjustment_sum, any_known, resolved_curve_id};
use crate::wow::data_tables::item_sparse::DEFAULT_ITEM_LEVEL;
use crate::wow::data_tables::Db2ItemBonuses;
use std::collections::HashMap;
use vstd::prelude::*;

verus! {

broadcast use vstd::std_specs::hash::group_hash_axioms;

/// The type of the modifier that holds the level of the player for whom an item dropped.
pub const DROP_LEVEL_MODIFIER_TYPE: u16 = 9;

/// The lowest level that an adjusted item has.
pub const MINIMUM_ITEM_LEVEL: u32 = 1;

/// The base level of an item: 1 for an item that the lookup does not hold.
pub open spec fn base_level_spec(item_id: u64, base_ilvls: Map<u64, u32>) -> u32 {
    if base_ilvls.contains_key(item_id) {
        base_ilvls[item_id]
    } else {
        DEFAULT_ITEM_LEVEL
    }
}

/// The level of the player for whom an item with these modifiers dropped: the value of the first
/// modifier of type 9, counted from `from`, cut to 32 bits.
pub open spec fn drop_level_spec(modifiers: Seq<ItemModifier>, from: int) -> Option<u32>
    decreases modifiers.len() - from,
{
    if from < 0 || from >= modifiers.len() {
        None
    } else if modifiers[from].modifier_type == DROP_LEVEL_MODIFIER_TYPE {
        Some(modifiers[from].value as u32)
    } else {
        drop_level_spec(modifiers, from + 1)
    }
}

/// The curve id of an item: the highest among those of its bonuses, if it has bonuses and one
/// of them has a curve id.
pub open spec fn curve_id_spec(item: Item, db2_bonuses: Db2ItemBonuses) -> Option<u32> {
    match item.bonus_lists {
        Some(bonus_ids) => resolved_curve_id(db2_bonuses.curve_ids(), bonus_ids@),
        None => None,
    }
}

/// The level adjustment of an item: the sum of those of its bonuses, if it has bonuses and one
/// of them has an adjustment.
pub open spec fn ilvl_adjustment_spec(item: Item, db2_bonuses: Db2ItemBonuses) -> Option<int> {
    match item.bonus_lists {
        Some(bonus_ids) => if any_known(db2_bonuses.ilvl_adjustments(), bonus_ids@) {
            Some(adjustment_sum(db2_bonuses.ilvl_adjustments(), bonus_ids@))
        } else {
            None
        },
        None => None,
    }
}

/// The level of an item whose base level is changed by `adjustment`: no less than 1, and no more
/// than a `u32` holds.
pub open spec fn adjusted_level(base: u32, adjustment: int) -> u32 {
    if base + adjustment < MINIMUM_ITEM_LEVEL {
        MINIMUM_ITEM_LEVEL
    } else if base + adjustment > u32::MAX {
        u32::MAX
    } else {
        (base + adjustment) as u32
    }
}

/// The level of an item.
///
/// An item that cannot be equipped has its base level. One that can has, in this order: the
/// level that the curve of its curve id gives at its drop level, where it has a curve id, a drop
/// level, and the curve is known; its base level, where it has a curve id; its base level
/// changed by its level adjustment, where it has one; its base level.
pub open spec fn resolve_item_level_spec(
    item: Item,
    is_equippable: bool,
    db2_bonuses: Db2ItemBonuses,
    base_ilvls: Map<u64, u32>,
    curve_points: Map<u32, ItemLevelCurve>,
) -> u32 {
    let base = base_level_spec(item.id, base_ilvls);
    if !is_equippable {
        base
    } else {
        match curve_id_spec(item, db2_bonuses) {
            Some(curve_id) => match item.modifiers {
                Some(modifiers) => match drop_level_spec(modifiers@, 0) {
                    Some(drop_level) => if curve_points.contains_key(curve_id) {
                        calc_ilvl_spec(curve_points[curve_id].points(), drop_level)
                    } else {
                        base
                    },
                    None => base,
                },
                None => base,
            },
            None => match ilvl_adjustment_spec(item, db2_bonuses) {
                Some(adjustment) => adjusted_level(base, adjustment),
                None => base,
            },
        }
    }
}

/// Whether the curve of a curve id, if there is one, has a control point.
pub open spec fn has_points(curve_points: Map<u32, ItemLevelCurve>, curve_id: u32) -> bool {
    curve_points.contains_key(curve_id) ==> curve_points[curve_id].points().len() > 0
}

/// Whether every curve has a control point.
pub open spec fn curves_have_points(curve_points: Map<u32, ItemLevelCurve>) -> bool {
    forall|curve_id: u32| #[trigger] has_points(curve_points, curve_id)
}

/// The base level of an item.
fn base_level(item_id: u64, base_ilvls: &HashMap<u64, u32>) -> (level: u32)
    ensures
        level == base_level_spec(item_id, base_ilvls@),
{
    match base_ilvls.get(&item_id) {
        Some(level) => *level,
        None => DEFAULT_ITEM_LEVEL,
    }
}

/// Decides `curves_have_points`.
pub(crate) fn all_have_points(curve_points: &ItemLevelCurvePoints) -> (all: bool)
    ensures
        all == curves_have_points(curve_points@),
{
    for (curve_id, curve) in iter: curve_points.iter()
        invariant
            forall|i: int|
                0 <= i < iter.index() ==> has_points(curve_points@, *(#[trigger] iter.seq()[i]).0),
    {
        if !curve.has_points() {
            assert(curve_points@.contains_key(*curve_id) && curve_points@[*curve_id] == *curve);
            assert(!has_points(curve_points@, *curve_id));
            return false;
        }
    }
    true
}

impl AuctionsSummary {
    /// The level adjustment of an item, however large.
    pub fn find_ilvl_adjustment(item: &Item, db2_bonuses: &Db2ItemBonuses) -> (adjustment: Option<
        i128,
    >)
        ensures
            match ilvl_adjustment_spec(*item, *db2_bonuses) {
                Some(sum) => adjustment == Some(sum as i128) && -0x8000_0000_0000_0000_0000_0000
                    <= sum <= 0x8000_0000_0000_0000_0000_0000,
                None => adjustment is None,
            },
    {
        match &item.bonus_lists {
            Some(bonus_ids) => {
                assert(0x8000_0000 * bonus_ids.len() <= 0x8000_0000_0000_0000_0000_0000)
                    by (nonlinear_arith)
                    requires
                        bonus_ids.len() <= u64::MAX,
                ;
                db2_bonuses.sum_ilvl_adjustments(bonus_ids.as_slice())
            },
            None => None,
        }
    }

    /// The curve id of an item.
    pub fn find_curve_id(item: &Item, db2_bonuses: &Db2ItemBonuses) -> (curve_id: Option<u32>)
        ensures
            curve_id == curve_id_spec(*item, *db2_bonuses),
    {
        match &item.bonus_lists {
            Some(bonus_ids) => db2_bonuses.resolve_curve_id(bonus_ids.as_slice()),
            None => None,
        }
    }

    /// The level of the player for whom the item dropped, where the item says so.
    pub fn drop_level(item: &Item) -> (level: Option<u32>)
        ensures
            level == match item.modifiers {
                Some(modifiers) => drop_level_spec(modifiers@, 0),
                None => None,
            },
    {
        match &item.modifiers {
            Some(modifiers) => {
                let mut i: usize = 0;
                while i < modifiers.len()
                    invariant
                        i <= modifiers.len(),
                        item.modifiers == Some(*modifiers),
                        drop_level_spec(modifiers@, 0) == drop_level_spec(modifiers@, i as int),
                    decreases modifiers.len() - i,
                {
                    if modifiers[i].modifier_type == DROP_LEVEL_MODIFIER_TYPE {
                        return Some(#[verifier::truncate] (modifiers[i].value as u32));
                    }
                    i = i + 1;
                }
                None
            },
            None => None,
        }
    }

    /// The level of an item: see `resolve_item_level_spec`.
    pub fn resolve_item_level(
        item: &Item,
        is_equippable: bool,
        db2_bonuses: &Db2ItemBonuses,
        base_ilvls: &HashMap<u64, u32>,
        curve_points: &ItemLevelCurvePoints,
    ) -> (level: u32)
        requires
            curves_have_points(curve_points@),
        ensures
            level == resolve_item_level_spec(
                *item,
                is_equippable,
                *db2_bonuses,
                base_ilvls@,
                curve_points@,
            ),
    {
        let base = base_level(item.id, base_ilvls);
        if !is_equippable {
            return base;
        }
        match AuctionsSummary::find_curve_id(item, db2_bonuses) {
            Some(curve_id) => match AuctionsSummary::drop_level(item) {
                Some(drop_level) => match curve_points.get(&curve_id) {
                    Some(curve) => {
                        assert(has_points(curve_points@, curve_id));
                        curve.calc_ilvl(&drop_level)
                    },
                    None => base,
                },
                None => base,
            },
            None => match AuctionsSummary::find_ilvl_adjustment(item, db2_bonuses) {
                Some(adjustment) => {
                    let level: i128 = base as i128 + adjustment;
                    if level < MINIMUM_ITEM_LEVEL as i128 {
                        MINIMUM_ITEM_LEVEL
                    } else if level > u32::MAX as i128 {
                        u32::MAX
                    } else {
                        level as u32
                    }
                },
                None => base,
            },
        }
    }
}

} // verus!
