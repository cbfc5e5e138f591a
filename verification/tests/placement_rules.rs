use algo::bounds::MapBounds;
use algo::coords::xy;
use algo::map::{CanRemove, CanSpawn, CanUpgrade, MapState, Resource, UnitPresent};
use algo::messages::{UnitCategory, UnitInformation};
use algo::units::{MobileUnitType, SpawnableUnitType, StructureUnitType, UnitType, UnitTypeAtlas};

fn info(
    category: Option<UnitCategory>,
    health: u32,
    cost1: Option<u32>,
    cost2: Option<u32>,
    upgrade_cost1: Option<u32>,
    shorthand: &str,
) -> UnitInformation {
    UnitInformation {
        unit_category: category,
        start_health: Some(health),
        cost1,
        cost2,
        upgrade_cost1,
        upgrade_cost2: None,
        shorthand: Some(shorthand.to_owned()),
    }
}

fn test_atlas() -> UnitTypeAtlas {
    UnitTypeAtlas::new(vec![
        info(Some(UnitCategory::Structure), 60, Some(1), None, None, "FF"),
        info(Some(UnitCategory::Structure), 30, Some(4), None, None, "EF"),
        info(Some(UnitCategory::Structure), 75, Some(2), None, Some(4), "DF"),
        info(Some(UnitCategory::Mobile), 15, None, Some(1), None, "PI"),
        info(Some(UnitCategory::Mobile), 5, None, Some(3), None, "EI"),
        info(Some(UnitCategory::Mobile), 40, None, Some(1), None, "SI"),
        info(None, 1, None, None, None, "RM"),
        info(None, 1, None, None, None, "UP"),
    ])
}

const WALL: SpawnableUnitType = SpawnableUnitType::Structure(StructureUnitType::Wall);
const SCOUT: SpawnableUnitType = SpawnableUnitType::Mobile(MobileUnitType::Scout);

#[test]
fn resource_insufficiency_wins_even_on_an_invalid_cell() {
    let bounds = MapBounds::new();
    // no resources at all, and (0, 0) is outside the arena
    let state = MapState::new(test_atlas(), 0, 0);
    let decision = state.can_spawn(&bounds, xy(0, 0), UnitType::Wall, 1);
    assert_eq!(
        decision,
        CanSpawn::NotEnoughResources {
            have_bits: 0,
            need_bits: 0,
            have_cores: 0,
            need_cores: 1,
        }
    );
}

#[test]
fn collision_outranks_side_and_arena_checks() {
    let bounds = MapBounds::new();
    let mut state = MapState::new(test_atlas(), 50, 50);
    assert!(state.spawn(&bounds, xy(13, 5), WALL).is_ok());
    // the occupied cell reports the standing structure before anything else
    let decision = state.can_spawn(&bounds, xy(13, 5), UnitType::Turret, 1);
    assert_eq!(
        decision,
        CanSpawn::UnitAlreadyPresent {
            coords: xy(13, 5),
            unit_present: UnitPresent::Wall,
        }
    );
    // a removal action may target an occupied cell
    assert_eq!(state.can_remove_structure(&bounds, xy(13, 5)), CanRemove::Yes);
}

#[test]
fn structures_are_blocked_by_mobile_units() {
    let bounds = MapBounds::new();
    let mut state = MapState::new(test_atlas(), 50, 50);
    // (14, 0) sits on the bottom-right edge, so a scout may deploy there
    assert!(state.spawn(&bounds, xy(14, 0), SCOUT).is_ok());
    let decision = state.can_spawn(&bounds, xy(14, 0), UnitType::Wall, 1);
    assert_eq!(
        decision,
        CanSpawn::UnitAlreadyPresent {
            coords: xy(14, 0),
            unit_present: UnitPresent::Mobile,
        }
    );
    // another scout may still stack on the same cell
    assert_eq!(state.can_spawn(&bounds, xy(14, 0), UnitType::Scout, 1), CanSpawn::Yes);
}

#[test]
fn wrong_side_arena_and_edge_checks_in_order() {
    let bounds = MapBounds::new();
    let state = MapState::new(test_atlas(), 50, 50);
    // opponent half
    assert_eq!(
        state.can_spawn(&bounds, xy(13, 14), UnitType::Wall, 1),
        CanSpawn::WrongSideOfMap(xy(13, 14))
    );
    // own half but outside the diamond
    assert_eq!(
        state.can_spawn(&bounds, xy(0, 0), UnitType::Wall, 1),
        CanSpawn::OutOfBounds(xy(0, 0))
    );
    // a mobile unit must start on one of the two friendly edges
    assert_eq!(
        state.can_spawn(&bounds, xy(14, 1), UnitType::Scout, 1),
        CanSpawn::NotOnEdge(xy(14, 1))
    );
    // while a structure is fine on any own-half arena cell
    assert_eq!(state.can_spawn(&bounds, xy(14, 1), UnitType::Wall, 1), CanSpawn::Yes);
}

#[test]
fn quantity_scales_the_resource_requirement() {
    let bounds = MapBounds::new();
    let state = MapState::new(test_atlas(), 10, 10);
    // ten walls cost ten cores: affordable
    assert_eq!(state.can_spawn(&bounds, xy(14, 1), UnitType::Wall, 10), CanSpawn::Yes);
    // eleven are not
    assert_eq!(
        state.can_spawn(&bounds, xy(14, 1), UnitType::Wall, 11),
        CanSpawn::NotEnoughResources {
            have_bits: 10,
            need_bits: 0,
            have_cores: 10,
            need_cores: 11,
        }
    );
}

#[test]
fn removal_decisions() {
    let bounds = MapBounds::new();
    let mut state = MapState::new(test_atlas(), 50, 50);
    assert_eq!(
        state.can_remove_structure(&bounds, xy(0, 0)),
        CanRemove::OutOfBounds(xy(0, 0))
    );
    assert_eq!(
        state.can_remove_structure(&bounds, xy(13, 14)),
        CanRemove::WrongSideOfMap(xy(13, 14))
    );
    assert_eq!(
        state.can_remove_structure(&bounds, xy(13, 5)),
        CanRemove::NoUnitPresent(xy(13, 5))
    );
    assert!(state.spawn(&bounds, xy(14, 0), SCOUT).is_ok());
    assert_eq!(
        state.can_remove_structure(&bounds, xy(14, 0)),
        CanRemove::MobileUnitPresent(xy(14, 0))
    );
}

#[test]
fn upgrade_decisions() {
    let bounds = MapBounds::new();
    let mut state = MapState::new(test_atlas(), 10, 0);
    assert_eq!(state.can_upgrade(&bounds, xy(0, 0)), CanUpgrade::OutOfBounds(xy(0, 0)));
    assert_eq!(
        state.can_upgrade(&bounds, xy(13, 14)),
        CanUpgrade::WrongSideOfMap(xy(13, 14))
    );
    assert_eq!(state.can_upgrade(&bounds, xy(13, 5)), CanUpgrade::NoUnitPresent(xy(13, 5)));

    // a turret costs 2 and its distinct upgrade cost is 4
    let turret = SpawnableUnitType::Structure(StructureUnitType::Turret);
    assert!(state.spawn(&bounds, xy(13, 5), turret).is_ok());
    assert_eq!(state.resource_owned(Resource::Cores), 8);
    assert_eq!(state.can_upgrade(&bounds, xy(13, 5)), CanUpgrade::Yes);
    assert!(state.upgrade(&bounds, xy(13, 5)).is_ok());
    assert_eq!(state.resource_owned(Resource::Cores), 4);
    // the insufficiency check precedes the marker check, so with enough
    // cores left the doubled upgrade is what gets reported
    assert_eq!(state.can_upgrade(&bounds, xy(13, 5)), CanUpgrade::AlreadyUpgraded);
}

#[test]
fn upgrade_is_blocked_by_mobile_units() {
    let bounds = MapBounds::new();
    let mut state = MapState::new(test_atlas(), 10, 10);
    // a scout on the bottom-right edge blocks upgrades at its cell
    assert!(state.spawn(&bounds, xy(14, 0), SCOUT).is_ok());
    assert_eq!(
        state.can_upgrade(&bounds, xy(14, 0)),
        CanUpgrade::MobileUnitPresent(xy(14, 0))
    );
}

#[test]
fn upgrade_falls_back_to_the_base_cost() {
    let bounds = MapBounds::new();
    let mut state = MapState::new(test_atlas(), 1, 0);
    // a wall costs 1 and defines no distinct upgrade cost
    assert!(state.spawn(&bounds, xy(13, 5), WALL).is_ok());
    assert_eq!(state.resource_owned(Resource::Cores), 0);
    assert_eq!(
        state.can_upgrade(&bounds, xy(13, 5)),
        CanUpgrade::NotEnoughResources {
            have_bits: 0,
            need_bits: 0,
            have_cores: 0,
            need_cores: 1,
        }
    );
}

#[test]
fn costs_and_affordability() {
    let state = MapState::new(test_atlas(), 7, 5);
    assert_eq!(state.cost_of(WALL).cores, Some(1));
    assert_eq!(state.cost_of(WALL).bits, None);
    assert_eq!(state.cost_of(SCOUT).bits, Some(1));
    assert_eq!(state.cost_of(SCOUT).cores, None);
    // walls: 7 cores affordable, free in bits, capped at 99
    assert_eq!(state.number_affordable(WALL), 7);
    assert_eq!(state.number_affordable(SCOUT), 5);
    let demolisher = SpawnableUnitType::Mobile(MobileUnitType::Demolisher);
    assert_eq!(state.number_affordable(demolisher), 1);
    assert_eq!(Resource::which_buys(WALL), Resource::Cores);
    assert_eq!(Resource::which_buys(SCOUT), Resource::Bits);
    assert_eq!(state.resource_owned(Resource::Cores), 7);
    assert_eq!(state.resource_owned(Resource::Bits), 5);
}
