use etherealpost::parse::ItemLevelCurve;
use etherealpost::wow::data_tables::{
    Db2BattlePetSpecies, Db2BattlePetSpeciesTable, Db2CurvePoint, Db2CurvePoints, Db2Item,
    Db2ItemBonus, Db2ItemBonuses, Db2ItemEffect, Db2ItemEffects, Db2ItemSparse,
    Db2ItemSparseTable, Db2Items,
};
use std::collections::HashMap;

const ITEM_BONUSES_CSV_HEADER: &str =
    "ID,Value[0],Value[1],Value[2],Value[3],ParentItemBonusListID,Type,OrderIndex";

const CURVE_CSV_HEADER: &str =
    "ID,Pos[0],Pos[1],PosPreSquish[0],PosPreSquish[1],CurveID,OrderIndex";

const ITEM_SPARSE_CSV_HEADER: &str = "ID,AllowableRace,Description_lang,Display3_lang,Display2_lang,Display1_lang,Display_lang,DmgVariance,DurationInInventory,QualityModifier,BagFamily,ItemRange,StatPercentageOfSocket[0],StatPercentageOfSocket[1],StatPercentageOfSocket[2],StatPercentageOfSocket[3],StatPercentageOfSocket[4],StatPercentageOfSocket[5],StatPercentageOfSocket[6],StatPercentageOfSocket[7],StatPercentageOfSocket[8],StatPercentageOfSocket[9],StatPercentEditor[0],StatPercentEditor[1],StatPercentEditor[2],StatPercentEditor[3],StatPercentEditor[4],StatPercentEditor[5],StatPercentEditor[6],StatPercentEditor[7],StatPercentEditor[8],StatPercentEditor[9],Stackable,MaxCount,RequiredAbility,SellPrice,BuyPrice,VendorStackCount,PriceVariance,PriceRandomValue,Flags[0],Flags[1],Flags[2],Flags[3],OppositeFactionItemID,ModifiedCraftingReagentItemID,ContentTuningID,PlayerLevelToItemLevelCurveID,ItemNameDescriptionID,RequiredTransmogHoliday,RequiredHoliday,LimitCategory,Gem_properties,Socket_match_enchantment_ID,TotemCategoryID,InstanceBound,ZoneBound[0],ZoneBound[1],ItemSet,LockID,StartQuestID,PageID,ItemDelay,MinFactionID,RequiredSkillRank,RequiredSkill,ItemLevel,AllowableClass,ExpansionID,ArtifactID,SpellWeight,SpellWeightCategory,SocketType[0],SocketType[1],SocketType[2],SheatheType,Material,PageMaterialID,LanguageID,Bonding,DamageType,StatModifier_bonusStat[0],StatModifier_bonusStat[1],StatModifier_bonusStat[2],StatModifier_bonusStat[3],StatModifier_bonusStat[4],StatModifier_bonusStat[5],StatModifier_bonusStat[6],StatModifier_bonusStat[7],StatModifier_bonusStat[8],StatModifier_bonusStat[9],ContainerSlots,MinReputation,RequiredPVPMedal,RequiredPVPRank,RequiredLevel,InventoryType,OverallQualityID";

const BATTLE_PET_SPECIES_CSV_HEADER: &str =
    "Description_lang,SourceText_lang,ID,CreatureID,SummonSpellID,IconFileDataID,PetTypeEnum,Flags,SourceTypeEnum,CardUIModelSceneID,LoadoutUIModelSceneID,CovenantID";

/// The rows of a table in CSV, each as a lookup from column name to field.
fn records(text: &str) -> Vec<HashMap<String, String>> {
    let mut reader = csv::Reader::from_reader(text.as_bytes());
    let headers: Vec<String> = reader
        .headers()
        .unwrap()
        .iter()
        .map(|header| header.to_string())
        .collect();
    let mut rows = Vec::new();
    for record in reader.records() {
        let record = record.unwrap();
        let mut row = HashMap::new();
        for (header, field) in headers.iter().zip(record.iter()) {
            row.insert(header.clone(), field.to_string());
        }
        rows.push(row);
    }
    rows
}

fn thousandths(field: &str) -> i32 {
    (field.parse::<f64>().unwrap() * 1000.0).round() as i32
}

fn item_bonuses(text: &str) -> Db2ItemBonuses {
    let rows: Vec<Db2ItemBonus> = records(text)
        .iter()
        .map(|row| Db2ItemBonus {
            id: row["ID"].parse().unwrap(),
            value0: row["Value[0]"].parse().unwrap(),
            value1: row["Value[1]"].parse().unwrap(),
            value2: row["Value[2]"].parse().unwrap(),
            value3: row["Value[3]"].parse().unwrap(),
            parent_item_bonus_list_id: row["ParentItemBonusListID"].parse().unwrap(),
            type_id: row["Type"].parse().unwrap(),
            order_index: row["OrderIndex"].parse().unwrap(),
        })
        .collect();
    Db2ItemBonuses::from_rows(&rows)
}

fn curve_points(text: &str) -> Db2CurvePoints {
    let rows: Vec<Db2CurvePoint> = records(text)
        .iter()
        .map(|row| Db2CurvePoint {
            id: row["ID"].parse().unwrap(),
            x: thousandths(&row["Pos[0]"]),
            y: thousandths(&row["Pos[1]"]),
            x_pre_squish: thousandths(&row["PosPreSquish[0]"]),
            y_pre_squish: thousandths(&row["PosPreSquish[1]"]),
            curve_id: row["CurveID"].parse().unwrap(),
            order_index: row["OrderIndex"].parse().unwrap(),
        })
        .collect();
    Db2CurvePoints::from_rows(&rows)
}

fn levels(points: &Vec<(i32, i32)>) -> Vec<(f64, f64)> {
    points
        .iter()
        .map(|(x, y)| (*x as f64 / 1000.0, *y as f64 / 1000.0))
        .collect()
}

fn item_sparse(text: &str) -> Db2ItemSparseTable {
    let rows: Vec<Db2ItemSparse> = records(text)
        .iter()
        .map(|row| Db2ItemSparse {
            id: row["ID"].parse().unwrap(),
            item_level: row["ItemLevel"].parse().unwrap(),
        })
        .collect();
    Db2ItemSparseTable::from_rows(&rows)
}

fn battle_pet_species(text: &str) -> Db2BattlePetSpeciesTable {
    let rows: Vec<Db2BattlePetSpecies> = records(text)
        .iter()
        .map(|row| Db2BattlePetSpecies {
            id: row["ID"].parse().unwrap(),
            summon_spell_id: row["SummonSpellID"].parse().unwrap(),
        })
        .collect();
    Db2BattlePetSpeciesTable::from_rows(&rows)
}

#[test]
fn resolve_ilvl_adjustment_single_adjustment() {
    let mut csv = String::from(ITEM_BONUSES_CSV_HEADER);
    csv.push_str("\n5,-2,0,0,0,58,1,0");

    let table = item_bonuses(&csv);
    assert_eq!(-2, table.resolve_ilvl_adjustment(&[58]).unwrap());
}

#[test]
fn resolve_ilvl_adjustment_multiple_adjustments() {
    let mut csv = String::from(ITEM_BONUSES_CSV_HEADER);
    csv.push_str("\n5,-2,0,0,0,58,1,0\n9,40,0,0,0,72,1,0");

    let table = item_bonuses(&csv);
    assert_eq!(38, table.resolve_ilvl_adjustment(&[58, 72]).unwrap());
}

#[test]
fn resolve_ilvl_adjustment_multiple_adjustments_mixed_types() {
    let mut csv = String::from(ITEM_BONUSES_CSV_HEADER);
    csv.push_str("\n5,-2,0,0,0,58,1,0\n9,40,0,0,0,72,1,0\n3,0,0,0,1222,72,11,0");

    let table = item_bonuses(&csv);
    assert_eq!(38, table.resolve_ilvl_adjustment(&[58, 72]).unwrap());
}

#[test]
fn resolve_curve_id_single_curve() {
    let mut csv = String::from(ITEM_BONUSES_CSV_HEADER);
    csv.push_str("\n5,0,0,0,19932,58,11,0");

    let table = item_bonuses(&csv);
    assert_eq!(19932, table.resolve_curve_id(&[58, 72]).unwrap());
}

#[test]
fn resolve_curve_id_multiple_curves() {
    let mut csv = String::from(ITEM_BONUSES_CSV_HEADER);
    csv.push_str("\n5,0,0,0,19932,58,11,0\n9,0,0,0,17322,72,11,0");

    let table = item_bonuses(&csv);
    assert_eq!(19932, table.resolve_curve_id(&[58, 72]).unwrap());
}

#[test]
fn resolve_curve_id_fixed_type() {
    let mut csv = String::from(ITEM_BONUSES_CSV_HEADER);
    csv.push_str("\n5,0,0,0,17322,58,13,0\n9,0,0,0,19932,72,13,0");

    let table = item_bonuses(&csv);
    assert_eq!(19932, table.resolve_curve_id(&[58, 72]).unwrap());
}

#[test]
fn item_bonuses_single_lookups() {
    let mut csv = String::from(ITEM_BONUSES_CSV_HEADER);
    csv.push_str("\n5,-2,0,0,0,58,1,0\n9,0,0,0,17322,72,13,0\n10,7,7,7,7,80,4,0");

    let table = item_bonuses(&csv);
    assert_eq!(Some(-2), table.ilvl_adjustment(&58));
    assert_eq!(None, table.ilvl_adjustment(&72));
    assert_eq!(None, table.ilvl_adjustment(&80));
    assert_eq!(Some(17322), table.curve_id(&72));
    assert_eq!(None, table.curve_id(&58));
    assert_eq!(None, table.curve_id(&80));
}

#[test]
fn item_bonuses_later_row_replaces_earlier_row() {
    let mut csv = String::from(ITEM_BONUSES_CSV_HEADER);
    csv.push_str("\n5,-2,0,0,0,58,1,0\n6,3,0,0,0,58,1,0\n7,0,0,0,11,72,11,0\n8,0,0,0,12,72,13,0");

    let table = item_bonuses(&csv);
    assert_eq!(Some(3), table.ilvl_adjustment(&58));
    assert_eq!(Some(12), table.curve_id(&72));
}

#[test]
fn resolve_without_known_bonuses() {
    let mut csv = String::from(ITEM_BONUSES_CSV_HEADER);
    csv.push_str("\n5,-2,0,0,0,58,1,0\n9,0,0,0,17322,72,13,0\n10,0,0,0,0,73,13,0");

    let table = item_bonuses(&csv);
    assert_eq!(None, table.resolve_ilvl_adjustment(&[]));
    assert_eq!(None, table.resolve_ilvl_adjustment(&[72, 1]));
    assert_eq!(None, table.sum_ilvl_adjustments(&[72, 1]));
    assert_eq!(Some(-4), table.sum_ilvl_adjustments(&[58, 1, 58]));
    assert_eq!(None, table.resolve_curve_id(&[]));
    assert_eq!(None, table.resolve_curve_id(&[58, 1]));
    // A curve id of 0 is a curve id like any other.
    assert_eq!(Some(0), table.resolve_curve_id(&[73]));
    assert_eq!(Some(0), table.resolve_curve_id(&[58, 73, 1]));
    assert_eq!(Some(17322), table.resolve_curve_id(&[73, 72, 73]));
    assert_eq!(Some(17322), table.resolve_curve_id(&[72, 73]));
}

#[test]
fn curve_single_curve() {
    let mut csv = String::from(CURVE_CSV_HEADER);
    csv.push_str("\n5,1,6,0,1,5,0");

    let table = curve_points(&csv);
    assert_eq!(vec![(1.0f64, 6.0f64)], levels(table.points(&5).unwrap()));
}

#[test]
fn curve_multiple_curves() {
    let mut csv = String::from(CURVE_CSV_HEADER);
    csv.push_str("\n5,1,6,0,1,5,0\n9,25,31,0,1,5,0");

    let table = curve_points(&csv);
    assert_eq!(
        vec![(1.0, 6.0), (25.0, 31.0)],
        levels(table.points(&5).unwrap())
    );
}

#[test]
fn curve_mixed_curves() {
    let mut csv = String::from(CURVE_CSV_HEADER);
    csv.push_str("\n5,1,6,0,1,5,0\n2,3,4,0,1,9,0\n9,25,31,0,1,5,0");

    let table = curve_points(&csv);
    assert_eq!(
        vec![(1.0, 6.0), (25.0, 31.0)],
        levels(table.points(&5).unwrap())
    );
}

#[test]
fn curve_no_curve_with_id() {
    let mut csv = String::from(CURVE_CSV_HEADER);
    csv.push_str("\n5,1,6,0,1,5,0\n2,3,4,0,1,9,0\n9,25,31,0,1,5,0");

    let table = curve_points(&csv);
    assert!(table.points(&12).is_none());
}

#[test]
fn curve_from_table() {
    let mut csv = String::from(CURVE_CSV_HEADER);
    csv.push_str("\n5,25,31,0,1,5,0\n2,3,4,0,1,9,0\n9,1,6,0,1,5,0");

    let table = curve_points(&csv);
    let curve = ItemLevelCurve::from_table(&5, &table).unwrap();
    assert_eq!(12, curve.calc_ilvl(&7));
    assert!(ItemLevelCurve::from_table(&12, &table).is_none());

    let curves = ItemLevelCurve::for_whole_table(&table);
    assert_eq!(2, curves.len());
    assert_eq!(12, curves[&5].calc_ilvl(&7));
    assert_eq!(4, curves[&9].calc_ilvl(&7));
    assert!(!curves.contains_key(&12));
}

#[test]
fn base_ilvl_returns_base_ilvl_if_exists() {
    let mut csv = String::from(ITEM_SPARSE_CSV_HEADER);
    csv.push_str("\n183421,-1,,,,,Stone Legion Sabatons,0,0,0,0,0,0,0,0,0,0,0,0,0,0,0,5259,7889,4250,2750,0,0,0,0,0,0,1,0,0,424559,2122798,1,1,0.9565,0,8192,0,0,0,0,0,0,0,0,0,0,0,0,0,0,0,0,0,0,0,0,0,0,0,0,100,-1,8,0,0,0,0,0,0,0,5,0,0,2,0,74,7,40,36,-1,-1,-1,-1,-1,-1,0,0,0,0,48,8,3");

    let table = item_sparse(&csv);
    assert_eq!(100, table.base_ilvl(&183421));
}

#[test]
fn base_ilvl_returns_default_if_not_found() {
    let mut csv = String::from(ITEM_SPARSE_CSV_HEADER);
    csv.push_str("\n183421,-1,,,,,Stone Legion Sabatons,0,0,0,0,0,0,0,0,0,0,0,0,0,0,0,5259,7889,4250,2750,0,0,0,0,0,0,1,0,0,424559,2122798,1,1,0.9565,0,8192,0,0,0,0,0,0,0,0,0,0,0,0,0,0,0,0,0,0,0,0,0,0,0,0,100,-1,8,0,0,0,0,0,0,0,5,0,0,2,0,74,7,40,36,-1,-1,-1,-1,-1,-1,0,0,0,0,48,8,3");

    let table = item_sparse(&csv);
    assert_eq!(1, table.base_ilvl(&25));
}

#[test]
fn base_ilvl_later_row_replaces_earlier_row() {
    let table = Db2ItemSparseTable::from_rows(&[
        Db2ItemSparse {
            id: 7,
            item_level: 10,
        },
        Db2ItemSparse {
            id: 7,
            item_level: 20,
        },
    ]);
    assert_eq!(20, table.base_ilvl(&7));
}

#[test]
fn battle_pet_species_uses_first_spell_id() {
    let mut csv = String::from(BATTLE_PET_SPECIES_CSV_HEADER);
    csv.push_str("\n\"Possibly explosive, definitely adorable. Keep away from open flame.\",|cFFFFD200Profession: |rEngineering,85,9656,15048,133712,9,2,3,6,7,0");
    csv.push_str("\n\"The first bombling created in the Underhold, Siegecrafter Blackfuse couldn't bear to see it destroyed, and kept it as a friendly, if explosive, pet.\",|cFFFFD200Drop:|r Siegecrafter Blackfuse|n|cFFFFD200Raid:|r Siege of Orgrimmar,1322,73352,15048,897633,9,2,0,6,7,0");

    let table = battle_pet_species(&csv);
    assert_eq!(85, *table.spell_to_species.get(&15048).unwrap());
}

#[test]
fn battle_pet_species_without_spell_is_left_out() {
    let table = Db2BattlePetSpeciesTable::from_rows(&[
        Db2BattlePetSpecies {
            id: 3,
            summon_spell_id: 0,
        },
        Db2BattlePetSpecies {
            id: 4,
            summon_spell_id: 9,
        },
    ]);
    assert_eq!(1, table.spell_to_species.len());
    assert_eq!(Some(&4), table.spell_to_species.get(&9));
}

#[test]
fn items_keeps_companion_pets() {
    let table = Db2Items::from_rows(&[
        Db2Item {
            id: 1,
            class_id: 15,
            subclass_id: 2,
        },
        Db2Item {
            id: 2,
            class_id: 15,
            subclass_id: 3,
        },
        Db2Item {
            id: 3,
            class_id: 2,
            subclass_id: 2,
        },
        Db2Item {
            id: 4,
            class_id: 15,
            subclass_id: 2,
        },
    ]);
    assert_eq!(vec![1, 4], table.pet_item_ids);
}

#[test]
fn item_effects_keeps_the_first_spell_that_an_item_teaches() {
    let table = Db2ItemEffects::from_rows(&[
        Db2ItemEffect {
            id: 1,
            spell_id: 100,
            trigger_type: 0,
            parent_item_id: 7,
        },
        Db2ItemEffect {
            id: 2,
            spell_id: 200,
            trigger_type: 6,
            parent_item_id: 7,
        },
        Db2ItemEffect {
            id: 3,
            spell_id: 300,
            trigger_type: 6,
            parent_item_id: 7,
        },
        Db2ItemEffect {
            id: 4,
            spell_id: 400,
            trigger_type: 6,
            parent_item_id: 8,
        },
    ]);
    assert_eq!(2, table.item_to_spell_learn.len());
    assert_eq!(Some(&200), table.item_to_spell_learn.get(&7));
    assert_eq!(Some(&400), table.item_to_spell_learn.get(&8));
}
