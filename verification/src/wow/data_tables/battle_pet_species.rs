//! Battle pet species, by the spell that summons them.

use std::collections::HashMap;
use vstd::prelude::*;

verus! {

broadcast use vstd::std_specs::hash::group_hash_axioms;

/// One row of the battle pet species table.
#[derive(Debug)]
pub struct Db2BattlePetSpecies {
    /// The id of the species.
    pub id: u32,
    /// The spell that summons a pet of the species; 0 for a species that cannot be caged.
    pub summon_spell_id: u32,
}

/// The battle pet species table, as a lookup of species by summoning spell.
pub struct Db2BattlePetSpeciesTable {
    /// The species that each spell summons, by spell id.
    pub spell_to_species: HashMap<u32, u32>,
}

/// The species that the rows give, by spell id; rows without a spell are passed over, and the
/// first row of a spell stands.
pub open spec fn spell_to_species_of(rows: Seq<Db2BattlePetSpecies>) -> Map<u32, u32>
    decreases rows.len(),
{
    if rows.len() == 0 {
        Map::empty()
    } else {
        let before = spell_to_species_of(rows.drop_last());
        let row = rows.last();
        if row.summon_spell_id != 0 && !before.contains_key(row.summon_spell_id) {
            before.insert(row.summon_spell_id, row.id)
        } else {
            before
        }
    }
}

impl Db2BattlePetSpeciesTable {
    /// Builds the lookup from the rows of the table.
    pub fn from_rows(rows: &[Db2BattlePetSpecies]) -> (table: Db2BattlePetSpeciesTable)
        ensures
            table.spell_to_species@ == spell_to_species_of(rows@),
    {
        let mut spell_to_species: HashMap<u32, u32> = HashMap::new();
        let mut i: usize = 0;
        while i < rows.len()
            invariant
                i <= rows.len(),
                spell_to_species@ == spell_to_species_of(rows@.take(i as int)),
            decreases rows.len() - i,
        {
            proof {
                assert(rows@.take(i + 1).drop_last() =~= rows@.take(i as int));
            }
            if rows[i].summon_spell_id != 0 && !spell_to_species.contains_key(
                &rows[i].summon_spell_id,
            ) {
                spell_to_species.insert(rows[i].summon_spell_id, rows[i].id);
            }
            i = i + 1;
        }
        proof {
            assert(rows@.take(rows.len() as int) =~= rows@);
        }
        Db2BattlePetSpeciesTable { spell_to_species }
    }
}

} // verus!
