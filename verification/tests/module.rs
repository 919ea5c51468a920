use simulation::module::{Field, modules, refusal, unsupported};
use simulation::plan::{NativeFormation, Placement, Position, SidePlan};

#[test]
fn every_field_is_claimed_once() {
    let every = [
        Field::Officers,
        Field::UnitTechnologies,
        Field::EnergyTowerSkills,
        Field::TowerStrengthenLevels,
        Field::BattleSkills,
        Field::Constructions,
        Field::Contraptions,
        Field::AirdropShields,
        Field::Terrains,
        Field::UnitLevel,
        Field::UnitEquipment,
        Field::Travelling,
    ];
    let table = modules();
    for field in every {
        let owners: Vec<_> = table
            .iter()
            .filter(|module| module.claims.contains(&field))
            .map(|module| module.native)
            .collect();
        assert_eq!(owners.len(), 1, "{} is claimed by {owners:?}", field.name());
    }
    let claimed: usize = table.iter().map(|module| module.claims.len()).sum();
    assert_eq!(claimed, every.len());
}

#[test]
fn the_modules_are_the_builds_thirty_five_and_one_of_our_own() {
    let table = modules();
    assert_eq!(table.len(), 36);
    assert_eq!(table[0].native, "Loadout");
    let mut native: Vec<&str> = table[1..].iter().map(|module| module.native).collect();
    let sorted = {
        let mut sorted = native.clone();
        sorted.sort_unstable();
        sorted
    };
    assert_eq!(native, sorted, "the build's modules are listed in name order");
    native.dedup();
    assert_eq!(native.len(), 35);
}

fn unit(level: Option<i32>) -> Placement {
    Placement {
        name: "marksman".to_owned(),
        native: NativeFormation::Unit(1),
        footprint: Some((8, 8)),
        position: Position { x: 0, y: -50 },
        index: Some(0),
        level,
        rotated: false,
        equipment: Vec::new(),
        travelling: false,
    }
}

fn bare() -> SidePlan {
    SidePlan {
        officers: Vec::new(),
        unit_technologies: Vec::new(),
        energy_tower_skills: 0,
        tower_strengthen_levels: vec![0, 0],
        battle_skills: 0,
        constructions: Vec::new(),
        contraptions: 0,
        airdrop_shields: 0,
        terrains: 0,
        units: vec![unit(Some(1))],
    }
}

#[test]
fn a_side_is_refused_for_every_field_it_carries_at_once() {
    assert!(unsupported(&bare()).is_empty());

    let mut loaded = bare();
    loaded.officers = vec![20010];
    loaded.constructions = vec![Placement {
        name: "defensive_wall".to_owned(),
        native: NativeFormation::Construction(1),
        footprint: None,
        position: Position { x: 140, y: -105 },
        index: Some(0),
        level: None,
        rotated: false,
        equipment: Vec::new(),
        travelling: false,
    }];
    loaded.units = vec![unit(Some(3))];
    let missing = unsupported(&loaded);
    assert_eq!(
        missing.iter().map(|(field, module)| (field.name(), *module)).collect::<Vec<_>>(),
        [
            ("officers", "Loadout"),
            ("constructions", "FightConstructionSystem"),
            ("units above level one", "Loadout"),
        ]
    );
    assert_eq!(
        refusal("blue", &missing),
        "side blue needs modules this build has not implemented: officers (Loadout), \
         constructions (FightConstructionSystem), units above level one (Loadout)"
    );
}

#[test]
fn a_unit_without_a_level_is_above_level_one() {
    let mut side = bare();
    side.units = vec![unit(None)];
    side.tower_strengthen_levels = vec![0, 2];
    let missing = unsupported(&side);
    assert_eq!(
        missing,
        vec![(Field::TowerStrengthenLevels, "BuildingSystem"), (Field::UnitLevel, "Loadout")]
    );
}
