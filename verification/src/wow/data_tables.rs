//! Lookups built from the rows of the game's reference tables.

pub mod battle_pet_species;
pub mod curve_points;
pub mod item;
pub mod item_bonus;
pub mod item_effect;
pub mod item_sparse;

pub use battle_pet_species::{Db2BattlePetSpecies, Db2BattlePetSpeciesTable};
pub use curve_points::{Db2CurvePoint, Db2CurvePoints};
pub use item::{Db2Item, Db2Items};
pub use item_bonus::{Db2ItemBonus, Db2ItemBonuses};
pub use item_effect::{Db2ItemEffect, Db2ItemEffects};
pub use item_sparse::{Db2ItemSparse, Db2ItemSparseTable};
