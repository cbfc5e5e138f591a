use algo::map::{Cost, Unit};
use algo::messages::{PlayerId, UnitCategory, UnitInformation};
use algo::units::{
    MobileUnitType, RemoveUnitType, SpawnableUnitType, StructureUnitType, UnitType, UnitTypeAtlas,
    UpgradeUnitType,
};

fn info(
    category: Option<UnitCategory>,
    health: u32,
    cost1: Option<u32>,
    cost2: Option<u32>,
    upgrade_cost1: Option<u32>,
    shorthand: &str,
) -> UnitInformation {
    UnitInformation {
        unit_category: category,
        start_health: Some(health),
        cost1,
        cost2,
        upgrade_cost1,
        upgrade_cost2: None,
        shorthand: Some(shorthand.to_owned()),
    }
}

fn test_atlas() -> UnitTypeAtlas {
    UnitTypeAtlas::new(vec![
        info(Some(UnitCategory::Structure), 60, Some(1), None, None, "FF"),
        info(Some(UnitCategory::Structure), 30, Some(4), None, None, "EF"),
        info(Some(UnitCategory::Structure), 75, Some(2), None, Some(4), "DF"),
        info(Some(UnitCategory::Mobile), 15, None, Some(1), None, "PI"),
        info(Some(UnitCategory::Mobile), 5, None, Some(3), None, "EI"),
        info(Some(UnitCategory::Mobile), 40, None, Some(1), None, "SI"),
        info(None, 1, None, None, None, "RM"),
        info(None, 1, None, None, None, "UP"),
    ])
}

#[test]
fn structure_and_mobile_predicates() {
    assert!(UnitType::Wall.is_structure());
    assert!(UnitType::Support.is_structure());
    assert!(UnitType::Turret.is_structure());
    assert!(!UnitType::Scout.is_structure());
    assert!(UnitType::Scout.is_mobile());
    assert!(UnitType::Demolisher.is_mobile());
    assert!(UnitType::Interceptor.is_mobile());
    assert!(!UnitType::Remove.is_mobile());
    assert!(!UnitType::Remove.is_spawnable());
    assert!(!UnitType::Upgrade.is_spawnable());
    assert!(UnitType::Wall.is_spawnable());
    assert!(UnitType::Scout.is_spawnable());
}

#[test]
fn conversions_between_taxonomies() {
    assert_eq!(UnitType::Wall.as_structure(), Some(StructureUnitType::Wall));
    assert_eq!(UnitType::Scout.as_structure(), None);
    assert_eq!(UnitType::Demolisher.as_mobile(), Some(MobileUnitType::Demolisher));
    assert_eq!(UnitType::Turret.as_mobile(), None);
    assert_eq!(
        UnitType::Interceptor.as_spawnable(),
        Some(SpawnableUnitType::Mobile(MobileUnitType::Interceptor))
    );
    assert_eq!(
        UnitType::Support.as_spawnable(),
        Some(SpawnableUnitType::Structure(StructureUnitType::Support))
    );
    assert_eq!(UnitType::Upgrade.as_spawnable(), None);

    assert_eq!(StructureUnitType::Turret.unit_type(), UnitType::Turret);
    assert_eq!(MobileUnitType::Scout.unit_type(), UnitType::Scout);
    assert_eq!(RemoveUnitType.unit_type(), UnitType::Remove);
    assert_eq!(UpgradeUnitType.unit_type(), UnitType::Upgrade);

    let s: SpawnableUnitType = SpawnableUnitType::Structure(StructureUnitType::Wall);
    assert!(s.is_structure());
    assert!(!s.is_mobile());
    assert_eq!(s.into_structure(), Some(StructureUnitType::Wall));
    assert_eq!(s.into_mobile(), None);
    let m: SpawnableUnitType = SpawnableUnitType::Mobile(MobileUnitType::Scout);
    assert_eq!(m.into_mobile(), Some(MobileUnitType::Scout));
    assert_eq!(m.into_structure(), None);
    assert_eq!(m.unit_type(), UnitType::Scout);
}

#[test]
fn atlas_translates_integers() {
    let atlas = test_atlas();
    assert_eq!(atlas.type_from_u32(0), Some(UnitType::Wall));
    assert_eq!(atlas.type_from_u32(3), Some(UnitType::Scout));
    assert_eq!(atlas.type_from_u32(7), Some(UnitType::Upgrade));
    assert_eq!(atlas.type_from_u32(8), None);
}

#[test]
fn atlas_translates_shorthands() {
    let atlas = test_atlas();
    assert_eq!(atlas.type_from_shorthand(&"FF".to_owned()), Some(UnitType::Wall));
    assert_eq!(atlas.type_from_shorthand(&"SI".to_owned()), Some(UnitType::Interceptor));
    assert_eq!(atlas.type_from_shorthand(&"UP".to_owned()), Some(UnitType::Upgrade));
    assert_eq!(atlas.type_from_shorthand(&"??".to_owned()), None);
    assert_eq!(atlas.type_into_shorthand(UnitType::Demolisher), "EI");
    assert_eq!(atlas.type_into_shorthand(UnitType::Remove), "RM");
}

#[test]
fn shorthands_round_trip() {
    let atlas = test_atlas();
    for i in 0..8u32 {
        let t = atlas.type_from_u32(i).expect("unit type");
        let code = atlas.type_into_shorthand(t).to_owned();
        assert_eq!(atlas.type_from_shorthand(&code), Some(t));
    }
}

#[test]
fn both_players_in_order() {
    assert_eq!(PlayerId::all(), [PlayerId::Player1, PlayerId::Player2]);
}

#[test]
fn units_unspecialize_to_the_general_taxonomy() {
    let unit = Unit {
        unit_type: StructureUnitType::Turret,
        health: 75,
        id: Some("u1".to_owned()),
        owner: PlayerId::Player2,
    };
    let general = unit.unspecialize();
    assert_eq!(general.unit_type, UnitType::Turret);
    assert_eq!(general.health, 75);
    assert_eq!(general.id, Some("u1".to_owned()));
    assert_eq!(general.owner, PlayerId::Player2);
}

#[test]
fn zero_cost_components_are_dropped() {
    let cost = Cost { bits: Some(0), cores: Some(3) };
    assert_eq!(cost.filter_nonzero(), Cost { bits: None, cores: Some(3) });
    let free = Cost { bits: Some(0), cores: Some(0) };
    assert_eq!(free.filter_nonzero(), Cost { bits: None, cores: None });
}

#[test]
fn atlas_duplicates_keep_every_record() {
    let atlas = test_atlas();
    let copy = atlas.duplicate();
    for i in 0..8u32 {
        let t = copy.type_from_u32(i).expect("unit type");
        assert_eq!(copy.type_into_shorthand(t), atlas.type_into_shorthand(t));
        assert_eq!(copy.type_mobile(t).cost1, atlas.type_mobile(t).cost1);
    }
}

#[test]
fn atlas_returns_the_declared_record() {
    let atlas = test_atlas();
    let wall_info = atlas.type_mobile(UnitType::Wall);
    assert_eq!(wall_info.cost1, Some(1));
    assert_eq!(wall_info.start_health, Some(60));
    let scout_info = atlas.type_mobile(UnitType::Scout);
    assert_eq!(scout_info.cost2, Some(1));
}
