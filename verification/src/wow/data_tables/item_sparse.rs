//! Base item levels.

use std::collections::HashMap;
use vstd::prelude::*;

verus! {

broadcast use vstd::std_specs::hash::group_hash_axioms;

/// The level of an item of which the table knows nothing.
pub const DEFAULT_ITEM_LEVEL: u32 = 1;

/// One row of the sparse item table.
#[derive(Debug)]
pub struct Db2ItemSparse {
    /// The id of the item.
    pub id: u32,
    /// The base level of the item.
    pub item_level: u32,
}

/// The sparse item table, as a lookup of base item levels.
pub struct Db2ItemSparseTable {
    /// The base level of each item, by item id.
    pub base_item_levels: HashMap<u32, u32>,
}

/// The base levels that the rows give, by item id; a later row replaces an earlier one.
pub open spec fn base_item_levels_of(rows: Seq<Db2ItemSparse>) -> Map<u32, u32>
    decreases rows.len(),
{
    if rows.len() == 0 {
        Map::empty()
    } else {
        base_item_levels_of(rows.drop_last()).insert(rows.last().id, rows.last().item_level)
    }
}

impl Db2ItemSparseTable {
    /// Builds the lookup from the rows of the table.
    pub fn from_rows(rows: &[Db2ItemSparse]) -> (table: Db2ItemSparseTable)
        ensures
            table.base_item_levels@ == base_item_levels_of(rows@),
    {
        let mut base_item_levels: HashMap<u32, u32> = HashMap::new();
        let mut i: usize = 0;
        while i < rows.len()
            invariant
                i <= rows.len(),
                base_item_levels@ == base_item_levels_of(rows@.take(i as int)),
            decreases rows.len() - i,
        {
            proof {
                assert(rows@.take(i + 1).drop_last() =~= rows@.take(i as int));
            }
            base_item_levels.insert(rows[i].id, rows[i].item_level);
            i = i + 1;
        }
        proof {
            assert(rows@.take(rows.len() as int) =~= rows@);
        }
        Db2ItemSparseTable { base_item_levels }
    }

    /// The base level of an item, and 1 for an item that the table does not hold.
    pub fn base_ilvl(&self, item_id: &u32) -> (level: u32)
        ensures
            level == if self.base_item_levels@.contains_key(*item_id) {
                self.base_item_levels@[*item_id]
            } else {
                DEFAULT_ITEM_LEVEL
            },
    {
        match self.base_item_levels.get(item_id) {
            Some(level) => *level,
            None => DEFAULT_ITEM_LEVEL,
        }
    }
}

} // verus!
