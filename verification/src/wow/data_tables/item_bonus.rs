//! Item bonuses: which bonus puts an item on a level curve, and which changes its level by a
//! fixed amount.

use std::collections::HashMap;
use vstd::prelude::*;

verus! {

broadcast use vstd::std_specs::hash::group_hash_axioms;

/// The type of a bonus that changes the item level by a fixed amount, held in `value0`.
pub const ITEM_LEVEL_TYPE: u16 = 1;

/// The type of a bonus that puts the item on a level curve, whose id is held in `value3`.
pub const SCALING_DISTRIBUTION_TYPE: u16 = 11;

/// The other type of a bonus that puts the item on a level curve.
pub const FIXED_SCALING_DISTRIBUTION_TYPE: u16 = 13;

/// One row of the item bonus table.
#[derive(Debug)]
pub struct Db2ItemBonus {
    /// The id of the row.
    pub id: u32,
    /// For a bonus of type 1, the amount by which the item level changes.
    pub value0: i32,
    /// Not used here.
    pub value1: i32,
    /// Not used here.
    pub value2: i32,
    /// For a bonus of type 11 or 13, the id of the level curve.
    pub value3: i32,
    /// The bonus id, as it stands in an item's bonus list.
    pub parent_item_bonus_list_id: u32,
    /// The type of the bonus.
    pub type_id: u16,
    /// The place of the row among rows of its kind.
    pub order_index: u16,
}

/// The item bonus table, as two lookups by bonus id.
pub struct Db2ItemBonuses {
    curve_ids: HashMap<u32, u32>,
    ilvl_adjustments: HashMap<u32, i32>,
}

/// The curve ids that the rows give, by bonus id; a later row replaces an earlier one.
pub open spec fn curve_ids_of(rows: Seq<Db2ItemBonus>) -> Map<u32, u32>
    decreases rows.len(),
{
    if rows.len() == 0 {
        Map::empty()
    } else {
        let row = rows.last();
        if row.type_id == SCALING_DISTRIBUTION_TYPE || row.type_id
            == FIXED_SCALING_DISTRIBUTION_TYPE {
            curve_ids_of(rows.drop_last()).insert(row.parent_item_bonus_list_id, row.value3 as u32)
        } else {
            curve_ids_of(rows.drop_last())
        }
    }
}

/// The level adjustments that the rows give, by bonus id; a later row replaces an earlier one.
pub open spec fn ilvl_adjustments_of(rows: Seq<Db2ItemBonus>) -> Map<u32, i32>
    decreases rows.len(),
{
    if rows.len() == 0 {
        Map::empty()
    } else {
        let row = rows.last();
        if row.type_id == ITEM_LEVEL_TYPE {
            ilvl_adjustments_of(rows.drop_last()).insert(row.parent_item_bonus_list_id, row.value0)
        } else {
            ilvl_adjustments_of(rows.drop_last())
        }
    }
}

/// The sum of the adjustments of those bonus ids that have one.
pub open spec fn adjustment_sum(adjustments: Map<u32, i32>, bonus_ids: Seq<u32>) -> int
    decreases bonus_ids.len(),
{
    if bonus_ids.len() == 0 {
        0
    } else if adjustments.contains_key(bonus_ids.last()) {
        adjustment_sum(adjustments, bonus_ids.drop_last()) + adjustments[bonus_ids.last()]
    } else {
        adjustment_sum(adjustments, bonus_ids.drop_last())
    }
}

/// Whether one of the bonus ids is a key of the lookup.
pub open spec fn any_known<V>(lookup: Map<u32, V>, bonus_ids: Seq<u32>) -> bool {
    exists|i: int| 0 <= i < bonus_ids.len() && lookup.contains_key(#[trigger] bonus_ids[i])
}

/// One more bonus id is known where one was known before, or where the one more is.
pub proof fn lemma_any_known_push<V>(lookup: Map<u32, V>, bonus_ids: Seq<u32>, bonus_id: u32)
    ensures
        any_known(lookup, bonus_ids.push(bonus_id)) == (any_known(lookup, bonus_ids)
            || lookup.contains_key(bonus_id)),
{
    let longer = bonus_ids.push(bonus_id);
    if any_known(lookup, bonus_ids) {
        let k = choose|k: int|
            0 <= k < bonus_ids.len() && lookup.contains_key(#[trigger] bonus_ids[k]);
        assert(longer[k] == bonus_ids[k]);
    }
    if lookup.contains_key(bonus_id) {
        assert(longer[bonus_ids.len() as int] == bonus_id);
    }
    if any_known(lookup, longer) {
        let k = choose|k: int| 0 <= k < longer.len() && lookup.contains_key(#[trigger] longer[k]);
        if k < bonus_ids.len() {
            assert(bonus_ids[k] == longer[k]);
        }
    }
}

/// The highest curve id among those of the bonus ids, 0 where none has one.
pub open spec fn highest_curve_id(curve_ids: Map<u32, u32>, bonus_ids: Seq<u32>) -> u32
    decreases bonus_ids.len(),
{
    if bonus_ids.len() == 0 {
        0
    } else {
        let before = highest_curve_id(curve_ids, bonus_ids.drop_last());
        if curve_ids.contains_key(bonus_ids.last()) && curve_ids[bonus_ids.last()] > before {
            curve_ids[bonus_ids.last()]
        } else {
            before
        }
    }
}

/// The curve id of an item with these bonus ids: the highest among those of the bonus ids, and
/// none where no bonus id has one.
pub open spec fn resolved_curve_id(curve_ids: Map<u32, u32>, bonus_ids: Seq<u32>) -> Option<u32> {
    if any_known(curve_ids, bonus_ids) {
        Some(highest_curve_id(curve_ids, bonus_ids))
    } else {
        None
    }
}

/// `highest_curve_id` is no less than the curve id of any of the bonus ids, and where one of them
/// has a curve id it is the curve id of one of them.
pub proof fn lemma_highest_curve_id(curve_ids: Map<u32, u32>, bonus_ids: Seq<u32>)
    ensures
        forall|i: int|
            0 <= i < bonus_ids.len() && curve_ids.contains_key(#[trigger] bonus_ids[i])
                ==> curve_ids[bonus_ids[i]] <= highest_curve_id(curve_ids, bonus_ids),
        any_known(curve_ids, bonus_ids) ==> exists|i: int|
            0 <= i < bonus_ids.len() && curve_ids.contains_key(#[trigger] bonus_ids[i])
                && curve_ids[bonus_ids[i]] == highest_curve_id(curve_ids, bonus_ids),
    decreases bonus_ids.len(),
{
    if bonus_ids.len() > 0 {
        let rest = bonus_ids.drop_last();
        lemma_highest_curve_id(curve_ids, rest);
        let highest = highest_curve_id(curve_ids, bonus_ids);
        assert forall|i: int|
            0 <= i < bonus_ids.len() && curve_ids.contains_key(
                #[trigger] bonus_ids[i],
            ) implies curve_ids[bonus_ids[i]] <= highest by {
            if i < rest.len() {
                assert(rest[i] == bonus_ids[i]);
            }
        }
        if any_known(curve_ids, bonus_ids) {
            assert(rest.push(bonus_ids.last()) =~= bonus_ids);
            lemma_any_known_push(curve_ids, rest, bonus_ids.last());
            if curve_ids.contains_key(bonus_ids.last()) && curve_ids[bonus_ids.last()]
                == highest {
                assert(bonus_ids[bonus_ids.len() - 1] == bonus_ids.last());
            } else {
                assert(any_known(curve_ids, rest)) by {
                    if !any_known(curve_ids, rest) {
                        assert(curve_ids.contains_key(bonus_ids.last()));
                        lemma_nothing_known(curve_ids, rest);
                    }
                }
                let i = choose|i: int|
                    0 <= i < rest.len() && curve_ids.contains_key(#[trigger] rest[i])
                        && curve_ids[rest[i]] == highest_curve_id(curve_ids, rest);
                assert(bonus_ids[i] == rest[i]);
            }
        }
    }
}

/// Where no bonus id has a curve id, the highest is 0.
proof fn lemma_nothing_known(curve_ids: Map<u32, u32>, bonus_ids: Seq<u32>)
    requires
        !any_known(curve_ids, bonus_ids),
    ensures
        highest_curve_id(curve_ids, bonus_ids) == 0,
    decreases bonus_ids.len(),
{
    if bonus_ids.len() > 0 {
        let rest = bonus_ids.drop_last();
        assert(rest.push(bonus_ids.last()) =~= bonus_ids);
        lemma_any_known_push(curve_ids, rest, bonus_ids.last());
        lemma_nothing_known(curve_ids, rest);
    }
}

impl Db2ItemBonuses {
    /// The curve id of each bonus that has one.
    pub closed spec fn curve_ids(&self) -> Map<u32, u32> {
        self.curve_ids@
    }

    /// The level adjustment of each bonus that has one.
    pub closed spec fn ilvl_adjustments(&self) -> Map<u32, i32> {
        self.ilvl_adjustments@
    }

    /// Builds the lookups from the rows of the table: a row of type 1 gives its bonus a level
    /// adjustment, a row of type 11 or 13 gives it a curve id, and any other row is passed over.
    pub fn from_rows(rows: &[Db2ItemBonus]) -> (table: Db2ItemBonuses)
        ensures
            table.curve_ids() == curve_ids_of(rows@),
            table.ilvl_adjustments() == ilvl_adjustments_of(rows@),
    {
        let mut curve_ids: HashMap<u32, u32> = HashMap::new();
        let mut ilvl_adjustments: HashMap<u32, i32> = HashMap::new();
        let mut i: usize = 0;
        while i < rows.len()
            invariant
                i <= rows.len(),
                curve_ids@ == curve_ids_of(rows@.take(i as int)),
                ilvl_adjustments@ == ilvl_adjustments_of(rows@.take(i as int)),
            decreases rows.len() - i,
        {
            let row = &rows[i];
            proof {
                assert(rows@.take(i + 1).drop_last() =~= rows@.take(i as int));
            }
            if row.type_id == ITEM_LEVEL_TYPE {
                ilvl_adjustments.insert(row.parent_item_bonus_list_id, row.value0);
            } else if row.type_id == FIXED_SCALING_DISTRIBUTION_TYPE || row.type_id
                == SCALING_DISTRIBUTION_TYPE {
                curve_ids.insert(row.parent_item_bonus_list_id, row.value3 as u32);
            }
            i = i + 1;
        }
        proof {
            assert(rows@.take(rows.len() as int) =~= rows@);
        }
        Db2ItemBonuses { curve_ids, ilvl_adjustments }
    }

    /// The level adjustment of one bonus.
    pub fn ilvl_adjustment(&self, bonus_id: &u32) -> (adjustment: Option<i32>)
        ensures
            adjustment == if self.ilvl_adjustments().contains_key(*bonus_id) {
                Some(self.ilvl_adjustments()[*bonus_id])
            } else {
                None
            },
    {
        match self.ilvl_adjustments.get(bonus_id) {
            Some(adjustment) => Some(*adjustment),
            None => None,
        }
    }

    /// The sum of the level adjustments of the bonuses that have one, however large, and `None`
    /// where no bonus has one.
    pub fn sum_ilvl_adjustments(&self, bonus_ids: &[u32]) -> (adjustment: Option<i128>)
        ensures
            adjustment == if any_known(self.ilvl_adjustments(), bonus_ids@) {
                Some(adjustment_sum(self.ilvl_adjustments(), bonus_ids@) as i128)
            } else {
                None
            },
            -0x8000_0000 * bonus_ids.len() <= adjustment_sum(self.ilvl_adjustments(), bonus_ids@)
                <= 0x8000_0000 * bonus_ids.len(),
    {
        let mut found = false;
        let mut sum: i128 = 0;
        let mut i: usize = 0;
        while i < bonus_ids.len()
            invariant
                i <= bonus_ids.len(),
                sum == adjustment_sum(self.ilvl_adjustments(), bonus_ids@.take(i as int)),
                -0x8000_0000 * i <= sum <= 0x8000_0000 * i,
                found == any_known(self.ilvl_adjustments(), bonus_ids@.take(i as int)),
            decreases bonus_ids.len() - i,
        {
            proof {
                let before = bonus_ids@.take(i as int);
                assert(bonus_ids@.take(i + 1) =~= before.push(bonus_ids@[i as int]));
                assert(before.push(bonus_ids@[i as int]).drop_last() =~= before);
                lemma_any_known_push(self.ilvl_adjustments(), before, bonus_ids@[i as int]);
            }
            match self.ilvl_adjustments.get(&bonus_ids[i]) {
                Some(adjustment) => {
                    found = true;
                    sum = sum + *adjustment as i128;
                },
                None => {},
            }
            i = i + 1;
        }
        proof {
            assert(bonus_ids@.take(bonus_ids.len() as int) =~= bonus_ids@);
        }
        if found {
            Some(sum)
        } else {
            None
        }
    }

    /// The level adjustment of an item with these bonuses: the sum of the adjustments of its
    /// bonuses, and `None` where no bonus has one.
    pub fn resolve_ilvl_adjustment(&self, bonus_ids: &[u32]) -> (adjustment: Option<i32>)
        requires
            i32::MIN <= adjustment_sum(self.ilvl_adjustments(), bonus_ids@) <= i32::MAX,
        ensures
            adjustment == if any_known(self.ilvl_adjustments(), bonus_ids@) {
                Some(adjustment_sum(self.ilvl_adjustments(), bonus_ids@) as i32)
            } else {
                None
            },
    {
        match self.sum_ilvl_adjustments(bonus_ids) {
            Some(sum) => Some(sum as i32),
            None => None,
        }
    }

    /// The curve id of one bonus.
    pub fn curve_id(&self, bonus_id: &u32) -> (curve_id: Option<u32>)
        ensures
            curve_id == if self.curve_ids().contains_key(*bonus_id) {
                Some(self.curve_ids()[*bonus_id])
            } else {
                None
            },
    {
        match self.curve_ids.get(bonus_id) {
            Some(curve_id) => Some(*curve_id),
            None => None,
        }
    }

    /// The curve id of an item with these bonuses: the highest of the curve ids of its bonuses,
    /// and `None` where no bonus has one.
    pub fn resolve_curve_id(&self, bonus_ids: &[u32]) -> (curve_id: Option<u32>)
        ensures
            curve_id == resolved_curve_id(self.curve_ids(), bonus_ids@),
            curve_id is None <==> !any_known(self.curve_ids(), bonus_ids@),
            curve_id matches Some(highest) ==> {
                &&& forall|i: int|
                    0 <= i < bonus_ids.len() && self.curve_ids().contains_key(
                        #[trigger] bonus_ids@[i],
                    ) ==> self.curve_ids()[bonus_ids@[i]] <= highest
                &&& exists|i: int|
                    0 <= i < bonus_ids.len() && self.curve_ids().contains_key(
                        #[trigger] bonus_ids@[i],
                    ) && self.curve_ids()[bonus_ids@[i]] == highest
            },
    {
        let mut found = false;
        let mut highest: u32 = 0;
        let mut i: usize = 0;
        while i < bonus_ids.len()
            invariant
                i <= bonus_ids.len(),
                highest == highest_curve_id(self.curve_ids(), bonus_ids@.take(i as int)),
                found == any_known(self.curve_ids(), bonus_ids@.take(i as int)),
            decreases bonus_ids.len() - i,
        {
            proof {
                let before = bonus_ids@.take(i as int);
                assert(bonus_ids@.take(i + 1) =~= before.push(bonus_ids@[i as int]));
                assert(before.push(bonus_ids@[i as int]).drop_last() =~= before);
                lemma_any_known_push(self.curve_ids(), before, bonus_ids@[i as int]);
            }
            match self.curve_id(&bonus_ids[i]) {
                Some(curve_id) => {
                    found = true;
                    if curve_id > highest {
                        highest = curve_id;
                    }
                },
                None => {},
            }
            i = i + 1;
        }
        proof {
            assert(bonus_ids@.take(bonus_ids.len() as int) =~= bonus_ids@);
            lemma_highest_curve_id(self.curve_ids(), bonus_ids@);
        }
        if found {
            Some(highest)
        } else {
            None
        }
    }
}

} // verus!
