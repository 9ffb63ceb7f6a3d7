//! Items, of which the companion pets are kept.

use vstd::prelude::*;

verus! {

/// The class of miscellaneous items.
pub const MISC_CLASS_ID: u32 = 15;

/// The subclass of companion pets among the miscellaneous items.
pub const PET_SUBCLASS_ID: u32 = 2;

/// One row of the item table.
#[derive(Debug)]
pub struct Db2Item {
    /// The id of the item.
    pub id: u32,
    /// The class of the item.
    pub class_id: u32,
    /// The subclass of the item within its class.
    pub subclass_id: u32,
}

/// The item table, as the list of its companion pets.
pub struct Db2Items {
    /// The ids of the items that are companion pets, in the order of the table.
    pub pet_item_ids: Vec<u32>,
}

impl Db2Item {
    /// Whether the item is a companion pet.
    pub open spec fn is_pet(&self) -> bool {
        self.class_id == MISC_CLASS_ID && self.subclass_id == PET_SUBCLASS_ID
    }
}

/// The ids of the rows that are companion pets, in the order of the rows.
pub open spec fn pet_item_ids_of(rows: Seq<Db2Item>) -> Seq<u32>
    decreases rows.len(),
{
    if rows.len() == 0 {
        Seq::empty()
    } else if rows.last().is_pet() {
        pet_item_ids_of(rows.drop_last()).push(rows.last().id)
    } else {
        pet_item_ids_of(rows.drop_last())
    }
}

impl Db2Items {
    /// Picks the companion pets out of the rows of the table.
    pub fn from_rows(rows: &[Db2Item]) -> (table: Db2Items)
        ensures
            table.pet_item_ids@ == pet_item_ids_of(rows@),
    {
        let mut pet_item_ids: Vec<u32> = Vec::new();
        let mut i: usize = 0;
        while i < rows.len()
            invariant
                i <= rows.len(),
                pet_item_ids@ == pet_item_ids_of(rows@.take(i as int)),
            decreases rows.len() - i,
        {
            proof {
                assert(rows@.take(i + 1).drop_last() =~= rows@.take(i as int));
            }
            if rows[i].class_id == MISC_CLASS_ID && rows[i].subclass_id == PET_SUBCLASS_ID {
                pet_item_ids.push(rows[i].id);
            }
            i = i + 1;
        }
        proof {
            assert(rows@.take(rows.len() as int) =~= rows@);
        }
        Db2Items { pet_item_ids }
    }
}

} // verus!
