use algo::coords::xy;
use algo::map::Resource;
use algo::messages::{PlayerId, UnitCategory, UnitInformation};
use algo::parse::{parse_frame, MapParseError, PlayerUnit, PlayerUnits};
use algo::units::{MobileUnitType, StructureUnitType, UnitTypeAtlas};

fn info(
    category: Option<UnitCategory>,
    health: u32,
    cost1: Option<u32>,
    cost2: Option<u32>,
    shorthand: &str,
) -> UnitInformation {
    UnitInformation {
        unit_category: category,
        start_health: Some(health),
        cost1,
        cost2,
        upgrade_cost1: None,
        upgrade_cost2: None,
        shorthand: Some(shorthand.to_owned()),
    }
}

fn test_atlas() -> UnitTypeAtlas {
    UnitTypeAtlas::new(vec![
        info(Some(UnitCategory::Structure), 60, Some(1), None, "FF"),
        info(Some(UnitCategory::Structure), 30, Some(4), None, "EF"),
        info(Some(UnitCategory::Structure), 75, Some(2), None, "DF"),
        info(Some(UnitCategory::Mobile), 15, None, Some(1), "PI"),
        info(Some(UnitCategory::Mobile), 5, None, Some(3), "EI"),
        info(Some(UnitCategory::Mobile), 40, None, Some(1), "SI"),
        info(None, 1, None, None, "RM"),
        info(None, 1, None, None, "UP"),
    ])
}

fn no_units() -> PlayerUnits {
    PlayerUnits {
        wall: Vec::new(),
        support: Vec::new(),
        turret: Vec::new(),
        scout: Vec::new(),
        demolisher: Vec::new(),
        interceptor: Vec::new(),
        remove: Vec::new(),
        upgrade: Vec::new(),
    }
}

fn rec(x: i32, y: i32, stability: u32, id: &str) -> PlayerUnit {
    PlayerUnit {
        coords: xy(x, y),
        stability,
        unit_id: id.to_owned(),
    }
}

#[test]
fn an_empty_frame_parses_to_an_empty_board() {
    let state = parse_frame(&no_units(), &no_units(), 30, 10, test_atlas()).expect("empty frame");
    assert_eq!(state.resource_owned(Resource::Cores), 30);
    assert_eq!(state.resource_owned(Resource::Bits), 10);
    assert!(state.wall_unit(xy(13, 5)).is_none());
    assert!(state.build_commands().is_empty());
    assert!(state.deploy_commands().is_empty());
}

#[test]
fn units_land_on_their_cells_with_ids_and_owners() {
    let mut p1 = no_units();
    p1.turret.push(rec(13, 5, 40, "u7"));
    p1.scout.push(rec(14, 0, 9, "u8"));
    p1.scout.push(rec(14, 0, 11, "u9"));
    let mut p2 = no_units();
    p2.wall.push(rec(13, 20, 55, "e1"));
    let state = parse_frame(&p1, &p2, 0, 0, test_atlas()).expect("frame");

    let turret = state.wall_unit(xy(13, 5)).expect("turret");
    assert_eq!(turret.unit_type, StructureUnitType::Turret);
    assert_eq!(turret.health, 40);
    assert_eq!(turret.id, Some("u7".to_owned()));
    assert_eq!(turret.owner, PlayerId::Player1);

    let scouts = state.mobile_units(xy(14, 0));
    assert_eq!(scouts.len(), 2);
    assert_eq!(scouts[0].unit_type, MobileUnitType::Scout);
    assert_eq!(scouts[0].health, 9);
    assert_eq!(scouts[1].health, 11);

    let enemy = state.wall_unit(xy(13, 20)).expect("enemy wall");
    assert_eq!(enemy.owner, PlayerId::Player2);
}

#[test]
fn a_unit_off_the_board_fails_the_frame() {
    let mut p1 = no_units();
    p1.scout.push(rec(-1, 3, 9, "u1"));
    let result = parse_frame(&p1, &no_units(), 0, 0, test_atlas());
    let err = match result {
        Err(e) => e,
        Ok(_) => panic!("expected a parse failure"),
    };
    assert_eq!(err, MapParseError::UnitInIllegalPosition(xy(-1, 3)));
}

#[test]
fn two_structures_on_one_cell_fail_the_frame() {
    let mut p1 = no_units();
    p1.wall.push(rec(13, 5, 60, "u1"));
    p1.turret.push(rec(13, 5, 75, "u2"));
    let result = parse_frame(&p1, &no_units(), 0, 0, test_atlas());
    let err = match result {
        Err(e) => e,
        Ok(_) => panic!("expected a parse failure"),
    };
    assert_eq!(err, MapParseError::MultipleWallsSamePosition(xy(13, 5)));
}

#[test]
fn doubled_markers_fail_the_frame() {
    let mut p1 = no_units();
    p1.remove.push(rec(13, 5, 1, "u1"));
    p1.remove.push(rec(13, 5, 1, "u2"));
    let result = parse_frame(&p1, &no_units(), 0, 0, test_atlas());
    let err = match result {
        Err(e) => e,
        Ok(_) => panic!("expected a parse failure"),
    };
    assert_eq!(err, MapParseError::MultipleRemovesSamePosition(xy(13, 5)));

    let mut p2 = no_units();
    p2.upgrade.push(rec(13, 20, 1, "u1"));
    p2.upgrade.push(rec(13, 20, 1, "u2"));
    let result = parse_frame(&no_units(), &p2, 0, 0, test_atlas());
    let err = match result {
        Err(e) => e,
        Ok(_) => panic!("expected a parse failure"),
    };
    assert_eq!(err, MapParseError::MultipleUpgradesSamePosition(xy(13, 20)));
}

#[test]
fn markers_from_the_frame_are_visible() {
    let mut p1 = no_units();
    p1.wall.push(rec(13, 5, 60, "u1"));
    p1.remove.push(rec(13, 5, 1, "u2"));
    p1.upgrade.push(rec(12, 5, 1, "u3"));
    let state = parse_frame(&p1, &no_units(), 0, 0, test_atlas()).expect("frame");
    assert!(state.remove_unit(xy(13, 5)).is_some());
    assert!(state.upgrade_unit(xy(12, 5)).is_some());
    assert!(state.remove_unit(xy(12, 5)).is_none());
}
