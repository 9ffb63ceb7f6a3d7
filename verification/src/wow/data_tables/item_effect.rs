//! Item effects, of which those are kept that teach something.

use std::collections::HashMap;
use vstd::prelude::*;

verus! {

broadcast use vstd::std_specs::hash::group_hash_axioms;

/// The trigger of an effect that teaches its spell to the player.
pub const LEARN_TRIGGER_TYPE: i16 = 6;

/// One row of the item effect table.
#[derive(Debug)]
pub struct Db2ItemEffect {
    /// The id of the effect.
    pub id: u32,
    /// The spell of the effect.
    pub spell_id: u32,
    /// What sets the effect off.
    pub trigger_type: i16,
    /// The item that has the effect.
    pub parent_item_id: u32,
}

/// The item effect table, as a lookup of the spells that items teach.
pub struct Db2ItemEffects {
    /// The spell that each item teaches, by item id.
    pub item_to_spell_learn: HashMap<u32, u32>,
}

/// The spells that the rows teach, by item id; the first row of an item stands.
pub open spec fn item_to_spell_learn_of(rows: Seq<Db2ItemEffect>) -> Map<u32, u32>
    decreases rows.len(),
{
    if rows.len() == 0 {
        Map::empty()
    } else {
        let before = item_to_spell_learn_of(rows.drop_last());
        let row = rows.last();
        if row.trigger_type == LEARN_TRIGGER_TYPE && !before.contains_key(row.parent_item_id) {
            before.insert(row.parent_item_id, row.spell_id)
        } else {
            before
        }
    }
}

impl Db2ItemEffects {
    /// Builds the lookup from the rows of the table.
    pub fn from_rows(rows: &[Db2ItemEffect]) -> (table: Db2ItemEffects)
        ensures
            table.item_to_spell_learn@ == item_to_spell_learn_of(rows@),
    {
        let mut item_to_spell_learn: HashMap<u32, u32> = HashMap::new();
        let mut i: usize = 0;
        while i < rows.len()
            invariant
                i <= rows.len(),
                item_to_spell_learn@ == item_to_spell_learn_of(rows@.take(i as int)),
            decreases rows.len() - i,
        {
            proof {
                assert(rows@.take(i + 1).drop_last() =~= rows@.take(i as int));
            }
            if rows[i].trigger_type == LEARN_TRIGGER_TYPE && !item_to_spell_learn.contains_key(
                &rows[i].parent_item_id,
            ) {
                item_to_spell_learn.insert(rows[i].parent_item_id, rows[i].spell_id);
            }
            i = i + 1;
        }
        proof {
            assert(rows@.take(rows.len() as int) =~= rows@);
        }
        Db2ItemEffects { item_to_spell_learn }
    }
}

} // verus!
