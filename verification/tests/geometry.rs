use algo::bounds::{MapBounds, MapEdge, BOARD_SIZE, EDGE_LENGTH};
use algo::coords::{xy, Coords};

#[test]
fn edge_lists_have_fourteen_cells_each() {
    let bounds = MapBounds::new();
    for edge in [
        MapEdge::TopRight,
        MapEdge::TopLeft,
        MapEdge::BottomLeft,
        MapEdge::BottomRight,
    ] {
        assert_eq!(bounds.coords_on_edge(edge).len(), EDGE_LENGTH);
    }
}

#[test]
fn edge_lists_match_the_corner_formulas() {
    let bounds = MapBounds::new();
    for i in 0..EDGE_LENGTH {
        let i32i = i as i32;
        assert_eq!(
            bounds.coords_on_edge(MapEdge::TopRight)[i],
            xy(14 + i32i, 27 - i32i)
        );
        assert_eq!(
            bounds.coords_on_edge(MapEdge::TopLeft)[i],
            xy(13 - i32i, 27 - i32i)
        );
        assert_eq!(bounds.coords_on_edge(MapEdge::BottomLeft)[i], xy(13 - i32i, i32i));
        assert_eq!(bounds.coords_on_edge(MapEdge::BottomRight)[i], xy(14 + i32i, i32i));
    }
}

#[test]
fn every_edge_cell_is_an_arena_cell() {
    let bounds = MapBounds::new();
    for edge in [
        MapEdge::TopRight,
        MapEdge::TopLeft,
        MapEdge::BottomLeft,
        MapEdge::BottomRight,
    ] {
        for &c in bounds.coords_on_edge(edge).iter() {
            assert!(bounds.is_in_arena(c));
            assert!(bounds.is_on_edge(edge, c));
        }
    }
}

#[test]
fn arena_is_exactly_the_diamond() {
    let bounds = MapBounds::new();
    let mut count = 0usize;
    for x in 0..BOARD_SIZE as i32 {
        for y in 0..BOARD_SIZE as i32 {
            let in_diamond = (x + y >= 13) && (x + y <= 41) && (x - y <= 14) && (y - x <= 14);
            assert_eq!(bounds.is_in_arena(xy(x, y)), in_diamond);
            if in_diamond {
                count += 1;
            }
        }
    }
    // 28 rows whose spans grow from 2 cells to 28 and shrink back
    assert_eq!(count, 420);
}

#[test]
fn out_of_board_coords_are_outside_everything() {
    let bounds = MapBounds::new();
    for c in [xy(-1, 13), xy(13, -1), xy(28, 13), xy(13, 28), xy(-5, -5)] {
        assert!(!bounds.is_in_arena(c));
        for edge in [
            MapEdge::TopRight,
            MapEdge::TopLeft,
            MapEdge::BottomLeft,
            MapEdge::BottomRight,
        ] {
            assert!(!bounds.is_on_edge(edge, c));
        }
    }
}

#[test]
fn coords_methods_agree_with_bounds() {
    let bounds = MapBounds::new();
    assert!(xy(14, 0).is_in_arena(&bounds));
    assert!(!xy(0, 0).is_in_arena(&bounds));
    assert!(xy(14, 0).is_on_edge(&bounds, MapEdge::BottomRight));
    assert!(!xy(14, 1).is_on_edge(&bounds, MapEdge::BottomRight));
}

#[test]
fn neighbors_are_the_four_adjacent_cells() {
    let c = xy(5, 9);
    let n = c.neighbors();
    assert_eq!(n[0], Coords { x: 5, y: 10 });
    assert_eq!(n[1], Coords { x: 5, y: 8 });
    assert_eq!(n[2], Coords { x: 4, y: 9 });
    assert_eq!(n[3], Coords { x: 6, y: 9 });
}
