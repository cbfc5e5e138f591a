use algo::bounds::MapBounds;
use algo::coords::xy;
use algo::map::MapState;
use algo::messages::{UnitCategory, UnitInformation};
use algo::tiles::{GetMultipleStateTilesError, InvalidTile};
use algo::units::{SpawnableUnitType, StructureUnitType, UnitTypeAtlas};

fn info(
    category: Option<UnitCategory>,
    health: u32,
    cost1: Option<u32>,
    cost2: Option<u32>,
    shorthand: &str,
) -> UnitInformation {
    UnitInformation {
        unit_category: category,
        start_health: Some(health),
        cost1,
        cost2,
        upgrade_cost1: None,
        upgrade_cost2: None,
        shorthand: Some(shorthand.to_owned()),
    }
}

fn test_atlas() -> UnitTypeAtlas {
    UnitTypeAtlas::new(vec![
        info(Some(UnitCategory::Structure), 60, Some(1), None, "FF"),
        info(Some(UnitCategory::Structure), 30, Some(4), None, "EF"),
        info(Some(UnitCategory::Structure), 75, Some(2), None, "DF"),
        info(Some(UnitCategory::Mobile), 15, None, Some(1), "PI"),
        info(Some(UnitCategory::Mobile), 5, None, Some(3), "EI"),
        info(Some(UnitCategory::Mobile), 40, None, Some(1), "SI"),
        info(None, 1, None, None, "RM"),
        info(None, 1, None, None, "UP"),
    ])
}

const WALL: SpawnableUnitType = SpawnableUnitType::Structure(StructureUnitType::Wall);

#[test]
fn tile_lookup_checks_the_arena() {
    let bounds = MapBounds::new();
    let state = MapState::new(test_atlas(), 0, 0);
    let handle = state.tile(&bounds, xy(13, 5)).expect("arena cell");
    assert_eq!(handle.coords(), xy(13, 5));
    assert!(state.tile(&bounds, xy(0, 0)).is_none());
    assert!(state.tile(&bounds, xy(-3, 9)).is_none());
}

#[test]
fn requesting_the_same_coordinate_twice_fails_both_requests() {
    let bounds = MapBounds::new();
    let state = MapState::new(test_atlas(), 0, 0);
    let requests = vec![xy(13, 5), xy(14, 5), xy(13, 5)];
    let handles = state.multiple_tiles(&bounds, &requests);
    assert_eq!(handles.len(), 3);
    assert_eq!(
        handles[0],
        Err(GetMultipleStateTilesError::RequestedSameTileTwice(xy(13, 5)))
    );
    assert_eq!(
        handles[2],
        Err(GetMultipleStateTilesError::RequestedSameTileTwice(xy(13, 5)))
    );
    let ok = handles[1].expect("distinct coordinate must succeed");
    assert_eq!(ok.coords(), xy(14, 5));
}

#[test]
fn distinct_valid_coordinates_yield_usable_handles() {
    let bounds = MapBounds::new();
    let mut state = MapState::new(test_atlas(), 10, 10);
    let requests = vec![xy(13, 5), xy(14, 5)];
    let handles = state.multiple_tiles(&bounds, &requests);
    let first = handles[0].expect("first handle");
    let second = handles[1].expect("second handle");
    // both handles drive real mutations independently
    assert!(state.try_spawn(&bounds, first.coords(), WALL));
    assert!(state.try_spawn(&bounds, second.coords(), WALL));
    assert!(state.wall_unit(xy(13, 5)).is_some());
    assert!(state.wall_unit(xy(14, 5)).is_some());
}

#[test]
fn invalid_coordinates_are_reported_individually() {
    let bounds = MapBounds::new();
    let state = MapState::new(test_atlas(), 0, 0);
    let requests = vec![xy(0, 0), xy(13, 5)];
    let handles = state.multiple_tiles(&bounds, &requests);
    assert_eq!(
        handles[0],
        Err(GetMultipleStateTilesError::InvalidCoord(xy(0, 0)))
    );
    assert!(handles[1].is_ok());
}

#[test]
fn bulk_spawn_counts_successes_and_rejects_invalid_tiles() {
    let bounds = MapBounds::new();
    let mut state = MapState::new(test_atlas(), 3, 0);
    // three affordable walls over four requests: the last one fails quietly
    let coords = vec![xy(12, 5), xy(13, 5), xy(14, 5), xy(15, 5)];
    assert_eq!(state.attempt_spawn_multiple(&bounds, &coords, WALL), Ok(3));
    // an out-of-arena coordinate aborts with the offending tile
    let bad = vec![xy(12, 6), xy(0, 0)];
    assert_eq!(
        state.attempt_spawn_multiple(&bounds, &bad, WALL),
        Err(InvalidTile(xy(0, 0)))
    );
}

#[test]
fn bulk_removal_counts_successes() {
    let bounds = MapBounds::new();
    let mut state = MapState::new(test_atlas(), 5, 0);
    let coords = vec![xy(12, 5), xy(13, 5)];
    assert_eq!(state.attempt_spawn_multiple(&bounds, &coords, WALL), Ok(2));
    let removals = vec![xy(12, 5), xy(13, 5), xy(14, 5)];
    assert_eq!(state.attempt_remove_multiple(&bounds, &removals), Ok(2));
    assert!(state.remove_unit(xy(12, 5)).is_some());
    assert!(state.remove_unit(xy(14, 5)).is_none());
}
