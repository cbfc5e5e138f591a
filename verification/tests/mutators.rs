use algo::bounds::MapBounds;
use algo::coords::xy;
use algo::map::{CanSpawn, MapState, Resource, SpawnCommand};
use algo::messages::{PlayerId, UnitCategory, UnitInformation};
use algo::units::{MobileUnitType, SpawnableUnitType, StructureUnitType, UnitTypeAtlas};

fn info(
    category: Option<UnitCategory>,
    health: u32,
    cost1: Option<u32>,
    cost2: Option<u32>,
    upgrade_cost1: Option<u32>,
    shorthand: &str,
) -> UnitInformation {
    UnitInformation {
        unit_category: category,
        start_health: Some(health),
        cost1,
        cost2,
        upgrade_cost1,
        upgrade_cost2: None,
        shorthand: Some(shorthand.to_owned()),
    }
}

fn test_atlas() -> UnitTypeAtlas {
    UnitTypeAtlas::new(vec![
        info(Some(UnitCategory::Structure), 60, Some(1), None, None, "FF"),
        info(Some(UnitCategory::Structure), 30, Some(4), None, None, "EF"),
        info(Some(UnitCategory::Structure), 75, Some(2), None, Some(4), "DF"),
        info(Some(UnitCategory::Mobile), 15, None, Some(1), None, "PI"),
        info(Some(UnitCategory::Mobile), 5, None, Some(3), None, "EI"),
        info(Some(UnitCategory::Mobile), 40, None, Some(1), None, "SI"),
        info(None, 1, None, None, None, "RM"),
        info(None, 1, None, None, None, "UP"),
    ])
}

const WALL: SpawnableUnitType = SpawnableUnitType::Structure(StructureUnitType::Wall);
const SCOUT: SpawnableUnitType = SpawnableUnitType::Mobile(MobileUnitType::Scout);

#[test]
fn failing_spawn_changes_nothing() {
    let bounds = MapBounds::new();
    let mut state = MapState::new(test_atlas(), 3, 3);
    assert!(state.spawn(&bounds, xy(14, 1), WALL).is_ok());
    let cores_before = state.resource_owned(Resource::Cores);
    let bits_before = state.resource_owned(Resource::Bits);
    let build_before = state.build_commands().clone();
    let deploy_before = state.deploy_commands().clone();

    // out of the arena: the spawn must fail and stage nothing
    let result = state.spawn(&bounds, xy(0, 0), WALL);
    assert_eq!(result, Err(CanSpawn::OutOfBounds(xy(0, 0))));
    assert_eq!(state.resource_owned(Resource::Cores), cores_before);
    assert_eq!(state.resource_owned(Resource::Bits), bits_before);
    assert_eq!(state.build_commands(), &build_before);
    assert_eq!(state.deploy_commands(), &deploy_before);
    assert!(state.wall_unit(xy(0, 0)).is_none());
}

#[test]
fn successful_structure_spawn_debits_and_logs() {
    let bounds = MapBounds::new();
    let mut state = MapState::new(test_atlas(), 5, 5);
    assert!(state.spawn(&bounds, xy(13, 5), WALL).is_ok());
    assert_eq!(state.resource_owned(Resource::Cores), 4);
    assert_eq!(state.resource_owned(Resource::Bits), 5);
    let wall = state.wall_unit(xy(13, 5)).expect("wall should stand");
    assert_eq!(wall.unit_type, StructureUnitType::Wall);
    assert_eq!(wall.health, 60);
    assert_eq!(wall.id, None);
    assert_eq!(wall.owner, PlayerId::Player1);
    assert_eq!(
        state.build_commands(),
        &vec![SpawnCommand("FF".to_owned(), 13, 5)]
    );
    assert!(state.deploy_commands().is_empty());
}

#[test]
fn successful_mobile_spawn_uses_the_deploy_log() {
    let bounds = MapBounds::new();
    let mut state = MapState::new(test_atlas(), 5, 5);
    assert!(state.spawn(&bounds, xy(14, 0), SCOUT).is_ok());
    assert!(state.spawn(&bounds, xy(14, 0), SCOUT).is_ok());
    assert_eq!(state.resource_owned(Resource::Bits), 3);
    let mobiles = state.mobile_units(xy(14, 0));
    assert_eq!(mobiles.len(), 2);
    assert_eq!(mobiles[0].unit_type, MobileUnitType::Scout);
    assert_eq!(mobiles[0].health, 15);
    assert!(state.build_commands().is_empty());
    assert_eq!(
        state.deploy_commands(),
        &vec![
            SpawnCommand("PI".to_owned(), 14, 0),
            SpawnCommand("PI".to_owned(), 14, 0)
        ]
    );
}

#[test]
fn commands_keep_the_order_of_mutations() {
    let bounds = MapBounds::new();
    let mut state = MapState::new(test_atlas(), 20, 20);
    assert!(state.spawn(&bounds, xy(13, 5), WALL).is_ok());
    let turret = SpawnableUnitType::Structure(StructureUnitType::Turret);
    assert!(state.spawn(&bounds, xy(14, 5), turret).is_ok());
    assert!(state.remove_structure(&bounds, xy(13, 5)).is_ok());
    assert!(state.upgrade(&bounds, xy(14, 5)).is_ok());
    assert_eq!(
        state.build_commands(),
        &vec![
            SpawnCommand("FF".to_owned(), 13, 5),
            SpawnCommand("DF".to_owned(), 14, 5),
            SpawnCommand("RM".to_owned(), 13, 5),
            SpawnCommand("UP".to_owned(), 14, 5),
        ]
    );
}

#[test]
fn removal_does_not_refund() {
    let bounds = MapBounds::new();
    let mut state = MapState::new(test_atlas(), 5, 0);
    assert!(state.spawn(&bounds, xy(13, 5), WALL).is_ok());
    assert_eq!(state.resource_owned(Resource::Cores), 4);
    assert!(state.remove_structure(&bounds, xy(13, 5)).is_ok());
    // the ledger keeps its balance; only a marker and a command appear
    assert_eq!(state.resource_owned(Resource::Cores), 4);
    assert!(state.remove_unit(xy(13, 5)).is_some());
    assert!(state.wall_unit(xy(13, 5)).is_some());
}

#[test]
fn upgrade_places_a_marker_and_debits() {
    let bounds = MapBounds::new();
    let mut state = MapState::new(test_atlas(), 6, 0);
    let turret = SpawnableUnitType::Structure(StructureUnitType::Turret);
    assert!(state.spawn(&bounds, xy(13, 5), turret).is_ok());
    assert!(state.upgrade_unit(xy(13, 5)).is_none());
    assert!(state.upgrade(&bounds, xy(13, 5)).is_ok());
    assert!(state.upgrade_unit(xy(13, 5)).is_some());
    assert_eq!(state.resource_owned(Resource::Cores), 0);
}

#[test]
fn try_variants_report_success() {
    let bounds = MapBounds::new();
    let mut state = MapState::new(test_atlas(), 2, 2);
    assert!(state.try_spawn(&bounds, xy(13, 5), WALL));
    assert!(!state.try_spawn(&bounds, xy(0, 0), WALL));
    assert!(!state.try_upgrade(&bounds, xy(14, 5)));
    assert!(state.try_remove_structure(&bounds, xy(13, 5)));
    assert!(!state.try_remove_structure(&bounds, xy(14, 5)));
}
