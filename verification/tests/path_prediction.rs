use algo::bounds::{MapBounds, MapEdge};
use algo::coords::{xy, Coords};
use algo::map::MapState;
use algo::messages::{UnitCategory, UnitInformation};
use algo::pathfinding::{
    compare_by_directional_correctness, direction_difference, idealness_of, LastDirection,
    StartedAtWall,
};
use algo::units::{SpawnableUnitType, StructureUnitType, UnitTypeAtlas};
use std::cmp::Ordering;

fn info(
    category: Option<UnitCategory>,
    health: u32,
    cost1: Option<u32>,
    cost2: Option<u32>,
    shorthand: &str,
) -> UnitInformation {
    UnitInformation {
        unit_category: category,
        start_health: Some(health),
        cost1,
        cost2,
        upgrade_cost1: None,
        upgrade_cost2: None,
        shorthand: Some(shorthand.to_owned()),
    }
}

fn test_atlas() -> UnitTypeAtlas {
    UnitTypeAtlas::new(vec![
        info(Some(UnitCategory::Structure), 60, Some(1), None, "FF"),
        info(Some(UnitCategory::Structure), 30, Some(4), None, "EF"),
        info(Some(UnitCategory::Structure), 75, Some(2), None, "DF"),
        info(Some(UnitCategory::Mobile), 15, None, Some(1), "PI"),
        info(Some(UnitCategory::Mobile), 5, None, Some(3), "EI"),
        info(Some(UnitCategory::Mobile), 40, None, Some(1), "SI"),
        info(None, 1, None, None, "RM"),
        info(None, 1, None, None, "UP"),
    ])
}

const WALL: SpawnableUnitType = SpawnableUnitType::Structure(StructureUnitType::Wall);

#[test]
fn idealness_scores_for_a_top_right_target() {
    let bounds = MapBounds::new();
    // a cell on the target edge always scores the maximum
    assert_eq!(idealness_of(&bounds, xy(14, 27), MapEdge::TopRight), Ok(u32::MAX));
    assert_eq!(idealness_of(&bounds, xy(27, 14), MapEdge::TopRight), Ok(u32::MAX));
    // interior cells score 28*y + x
    assert_eq!(idealness_of(&bounds, xy(14, 13), MapEdge::TopRight), Ok(378));
    assert_eq!(idealness_of(&bounds, xy(13, 13), MapEdge::TopRight), Ok(377));
    // out-of-arena cells fail with the cell itself
    assert_eq!(idealness_of(&bounds, xy(27, 27), MapEdge::TopRight), Err(xy(27, 27)));
}

#[test]
fn idealness_increases_toward_the_target_side() {
    let bounds = MapBounds::new();
    for y in 5..14 {
        let here = idealness_of(&bounds, xy(13, y), MapEdge::TopRight).unwrap();
        let righter = idealness_of(&bounds, xy(14, y), MapEdge::TopRight).unwrap();
        assert!(righter > here);
    }
    // and for a bottom-left target the mirror cell wins
    let a = idealness_of(&bounds, xy(13, 13), MapEdge::BottomLeft).unwrap();
    let b = idealness_of(&bounds, xy(12, 13), MapEdge::BottomLeft).unwrap();
    assert!(b > a);
}

#[test]
fn direction_difference_classifies_moves() {
    assert_eq!(direction_difference(xy(3, 3), xy(3, 4)), Ok(LastDirection::Vertical));
    assert_eq!(direction_difference(xy(3, 3), xy(2, 3)), Ok(LastDirection::Horizontal));
    assert_eq!(
        direction_difference(xy(3, 3), xy(4, 4)),
        Err([xy(3, 3), xy(4, 4)])
    );
    assert_eq!(
        direction_difference(xy(3, 3), xy(3, 3)),
        Err([xy(3, 3), xy(3, 3)])
    );
}

#[test]
fn first_moves_prefer_vertical_then_direction_changes_win() {
    let c = xy(10, 10);
    // very first move: vertical beats horizontal
    assert_eq!(
        compare_by_directional_correctness(c, xy(10, 11), xy(11, 10), None, MapEdge::TopRight),
        Ok(Ordering::Greater)
    );
    assert_eq!(
        compare_by_directional_correctness(c, xy(11, 10), xy(10, 11), None, MapEdge::TopRight),
        Ok(Ordering::Less)
    );
    // after a vertical move, a horizontal move is the direction change
    assert_eq!(
        compare_by_directional_correctness(
            c,
            xy(11, 10),
            xy(10, 11),
            Some(LastDirection::Vertical),
            MapEdge::TopRight
        ),
        Ok(Ordering::Greater)
    );
    // equal-axis ties go toward the target edge
    assert_eq!(
        compare_by_directional_correctness(
            c,
            xy(10, 11),
            xy(10, 9),
            Some(LastDirection::Horizontal),
            MapEdge::TopRight
        ),
        Ok(Ordering::Greater)
    );
    assert_eq!(
        compare_by_directional_correctness(
            c,
            xy(10, 9),
            xy(10, 11),
            Some(LastDirection::Horizontal),
            MapEdge::BottomRight
        ),
        Ok(Ordering::Greater)
    );
}

#[test]
fn pathfind_from_the_target_edge_returns_the_single_cell() {
    let bounds = MapBounds::new();
    let state = MapState::new(test_atlas(), 0, 0);
    // (14, 0) lies on the bottom-right edge
    let path = state
        .pathfind(&bounds, xy(14, 0), MapEdge::BottomRight)
        .expect("open start");
    assert_eq!(path, vec![xy(14, 0)]);
}

#[test]
fn pathfind_from_a_blocked_cell_reports_the_wall() {
    let bounds = MapBounds::new();
    let mut state = MapState::new(test_atlas(), 5, 0);
    assert!(state.spawn(&bounds, xy(13, 5), WALL).is_ok());
    match state.pathfind(&bounds, xy(13, 5), MapEdge::TopRight) {
        Ok(_) => panic!("a blocked start must not produce a path"),
        Err(StartedAtWall(c, unit)) => {
            assert_eq!(c, xy(13, 5));
            assert_eq!(unit.unit_type, StructureUnitType::Wall);
            assert_eq!(unit.health, 60);
        },
    }
}

#[test]
fn empty_arena_path_starts_vertically_and_ends_on_the_target_edge() {
    let bounds = MapBounds::new();
    let state = MapState::new(test_atlas(), 0, 0);
    let start = xy(13, 27);
    let path = state
        .pathfind(&bounds, start, MapEdge::BottomRight)
        .expect("open start");
    assert_eq!(path[0], start);
    assert!(path.len() > 1);
    // the very first move is vertical
    assert_eq!(path[1].x, start.x);
    assert_eq!((path[1].y - start.y).abs(), 1);
    // every step is axis-aligned between adjacent arena cells
    for w in path.windows(2) {
        let dx = (w[1].x - w[0].x).abs();
        let dy = (w[1].y - w[0].y).abs();
        assert_eq!(dx + dy, 1);
        assert!(bounds.is_in_arena(w[1]));
    }
    // and the walk ends exactly on the target edge
    let last: Coords = *path.last().unwrap();
    assert!(bounds.is_on_edge(MapEdge::BottomRight, last));
}

#[test]
fn walls_deflect_the_predicted_path() {
    let bounds = MapBounds::new();
    let mut state = MapState::new(test_atlas(), 30, 0);
    // a small barrier in front of the walker
    for x in 10..17 {
        assert!(state.spawn(&bounds, xy(x, 9), WALL).is_ok());
    }
    let path = state
        .pathfind(&bounds, xy(13, 2), MapEdge::TopRight)
        .expect("open start");
    // the path never enters a wall cell
    for c in &path {
        assert!(state.wall_unit(*c).is_none());
    }
    let last: Coords = *path.last().unwrap();
    assert!(bounds.is_on_edge(MapEdge::TopRight, last));
}

#[test]
fn an_enclosed_pocket_falls_back_to_its_best_cell() {
    let bounds = MapBounds::new();
    let mut state = MapState::new(test_atlas(), 30, 0);
    // seal the cell (14, 0) on the bottom-right edge: neighbors (13, 0),
    // (15, 0)... (14, 1) hold walls, so the pocket is only the start cell
    assert!(state.spawn(&bounds, xy(13, 0), WALL).is_ok());
    assert!(state.spawn(&bounds, xy(15, 1), WALL).is_ok());
    assert!(state.spawn(&bounds, xy(14, 1), WALL).is_ok());
    let path = state
        .pathfind(&bounds, xy(14, 0), MapEdge::TopRight)
        .expect("open start");
    // the pocket cannot reach the top-right edge; the best cell is the
    // start itself, so the path is a single cell
    assert_eq!(path, vec![xy(14, 0)]);
}
