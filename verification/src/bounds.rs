//! Shape of the game map: the diamond-shaped arena and its four diagonal
//! edges.

use vstd::prelude::*;

use crate::coords::Coords;
use crate::grid::{grid_in_bounds, grid_index, Grid};

verus! {

/// Side-length of the game board.
pub const BOARD_SIZE: usize = 28;

/// Number of cells on each diagonal edge.
pub const EDGE_LENGTH: usize = 14;

/// Edge of the map.
#[derive(Copy, Clone, PartialEq, Eq, Structural, Debug, Hash)]
pub enum MapEdge {
    TopRight,
    TopLeft,
    BottomLeft,
    BottomRight,
}

/// Leftmost arena column of row `y`.
pub open spec fn row_lo(y: int) -> int {
    if y < EDGE_LENGTH { EDGE_LENGTH - 1 - y } else { y - EDGE_LENGTH }
}

/// Rightmost arena column of row `y`.
pub open spec fn row_hi(y: int) -> int {
    if y < EDGE_LENGTH { EDGE_LENGTH + y } else { 3 * EDGE_LENGTH - 1 - y }
}

/// The diamond-shaped playable region: each row holds the contiguous span
/// of columns between the two boundary edges.
pub open spec fn in_diamond(x: int, y: int) -> bool {
    0 <= y < BOARD_SIZE && row_lo(y) <= x <= row_hi(y)
}

/// The `i`-th cell of `edge`, counted from the board's outer corner inward.
pub open spec fn edge_cell(edge: MapEdge, i: int) -> Coords {
    match edge {
        MapEdge::TopRight => Coords {
            x: (EDGE_LENGTH + i) as i32,
            y: (BOARD_SIZE - 1 - i) as i32,
        },
        MapEdge::TopLeft => Coords {
            x: (EDGE_LENGTH - 1 - i) as i32,
            y: (BOARD_SIZE - 1 - i) as i32,
        },
        MapEdge::BottomLeft => Coords { x: (EDGE_LENGTH - 1 - i) as i32, y: i as i32 },
        MapEdge::BottomRight => Coords { x: (EDGE_LENGTH + i) as i32, y: i as i32 },
    }
}

/// Closed form of membership in `edge`: each edge is a diagonal segment of
/// `EDGE_LENGTH` cells.
pub open spec fn on_edge(edge: MapEdge, x: int, y: int) -> bool {
    match edge {
        MapEdge::TopRight => x + y == 3 * EDGE_LENGTH - 1 && EDGE_LENGTH <= x < BOARD_SIZE,
        MapEdge::TopLeft => y - x == EDGE_LENGTH && 0 <= x < EDGE_LENGTH,
        MapEdge::BottomLeft => x + y == EDGE_LENGTH - 1 && 0 <= x < EDGE_LENGTH,
        MapEdge::BottomRight => x - y == EDGE_LENGTH && EDGE_LENGTH <= x < BOARD_SIZE,
    }
}

/// Membership in any of the four edges.
pub open spec fn on_any_edge(x: int, y: int) -> bool {
    ||| on_edge(MapEdge::TopRight, x, y)
    ||| on_edge(MapEdge::TopLeft, x, y)
    ||| on_edge(MapEdge::BottomLeft, x, y)
    ||| on_edge(MapEdge::BottomRight, x, y)
}

/// In every row the union of the four edges holds exactly the two boundary
/// cells of the diamond.
proof fn lemma_union_row(x: int, y: int)
    requires
        0 <= x < BOARD_SIZE,
        0 <= y < BOARD_SIZE,
    ensures
        on_any_edge(x, y) <==> (x == row_lo(y) || x == row_hi(y)),
{
}

/// Edge membership is exactly membership in the edge's cell list.
pub proof fn lemma_on_edge_iff(edge: MapEdge, x: int, y: int)
    ensures
        on_edge(edge, x, y) <==> exists|i: int|
            0 <= i < EDGE_LENGTH && edge_cell(edge, i) == (Coords { x: x as i32, y: y as i32 })
                && x == x as i32 && y == y as i32,
{
    if on_edge(edge, x, y) {
        let i: int = match edge {
            MapEdge::TopRight => x - EDGE_LENGTH,
            MapEdge::TopLeft => EDGE_LENGTH - 1 - x,
            MapEdge::BottomLeft => EDGE_LENGTH - 1 - x,
            MapEdge::BottomRight => x - EDGE_LENGTH,
        };
        assert(0 <= i < EDGE_LENGTH && edge_cell(edge, i) == (Coords {
            x: x as i32,
            y: y as i32,
        }));
    }
}

/// Each listed edge cell satisfies the closed form of edge membership.
pub proof fn lemma_edge_cell_on_edge(edge: MapEdge, i: int)
    requires
        0 <= i < EDGE_LENGTH,
    ensures
        on_edge(edge, edge_cell(edge, i).x as int, edge_cell(edge, i).y as int),
{
}

/// Every arena cell lies on the board.
pub proof fn lemma_diamond_in_bounds(x: int, y: int)
    requires
        in_diamond(x, y),
    ensures
        0 <= x < BOARD_SIZE,
        0 <= y < BOARD_SIZE,
{
}

/// Every edge cell lies inside the arena diamond.
pub proof fn lemma_edge_cells_in_arena(edge: MapEdge, x: int, y: int)
    requires
        on_edge(edge, x, y),
    ensures
        in_diamond(x, y),
{
}

/// Cached representation of the shape of the game map: the arena mask, one
/// membership mask per edge, and the ordered cell list of each edge.
///
/// Built once and then only read; every instance satisfies the same
/// geometric description, so the contracts of its queries speak about the
/// closed-form predicates `in_diamond` and `on_edge` alone.
pub struct MapBounds {
    arena: Grid<bool>,
    top_right_mask: Grid<bool>,
    top_left_mask: Grid<bool>,
    bottom_left_mask: Grid<bool>,
    bottom_right_mask: Grid<bool>,
    top_right_list: Vec<Coords>,
    top_left_list: Vec<Coords>,
    bottom_left_list: Vec<Coords>,
    bottom_right_list: Vec<Coords>,
}

impl MapBounds {
    spec fn mask_of(&self, edge: MapEdge) -> Grid<bool> {
        match edge {
            MapEdge::TopRight => self.top_right_mask,
            MapEdge::TopLeft => self.top_left_mask,
            MapEdge::BottomLeft => self.bottom_left_mask,
            MapEdge::BottomRight => self.bottom_right_mask,
        }
    }

    spec fn list_of(&self, edge: MapEdge) -> Seq<Coords> {
        match edge {
            MapEdge::TopRight => self.top_right_list@,
            MapEdge::TopLeft => self.top_left_list@,
            MapEdge::BottomLeft => self.bottom_left_list@,
            MapEdge::BottomRight => self.bottom_right_list@,
        }
    }

    #[verifier::type_invariant]
    spec fn wf(&self) -> bool {
        &&& self.arena.wf()
        &&& forall|c: Coords|
            grid_in_bounds(c) ==> self.arena.at(c) == in_diamond(c.x as int, c.y as int)
        &&& forall|edge: MapEdge| #![auto] self.mask_of(edge).wf()
        &&& forall|edge: MapEdge, c: Coords| #![auto]
            grid_in_bounds(c) ==> self.mask_of(edge).at(c) == on_edge(
                edge,
                c.x as int,
                c.y as int,
            )
        &&& forall|edge: MapEdge| #![auto] self.list_of(edge).len() == EDGE_LENGTH
        &&& forall|edge: MapEdge, i: int| #![auto]
            0 <= i < EDGE_LENGTH ==> self.list_of(edge)[i] == edge_cell(edge, i)
    }

    /// Is the given coord in the arena?
    pub fn is_in_arena(&self, c: Coords) -> (r: bool)
        ensures
            r == in_diamond(c.x as int, c.y as int),
    {
        proof {
            use_type_invariant(self);
        }
        if c.x >= 0 && c.y >= 0 && (c.x as usize) < BOARD_SIZE && (c.y as usize) < BOARD_SIZE {
            match self.arena.get(c) {
                Some(b) => *b,
                None => false,
            }
        } else {
            false
        }
    }

    /// Is the given coord on the given edge?
    pub fn is_on_edge(&self, edge: MapEdge, c: Coords) -> (r: bool)
        ensures
            r == on_edge(edge, c.x as int, c.y as int),
    {
        proof {
            use_type_invariant(self);
        }
        let mask = match edge {
            MapEdge::TopRight => &self.top_right_mask,
            MapEdge::TopLeft => &self.top_left_mask,
            MapEdge::BottomLeft => &self.bottom_left_mask,
            MapEdge::BottomRight => &self.bottom_right_mask,
        };
        proof {
            assert(*mask == self.mask_of(edge));
            assert(self.mask_of(edge).wf());
            assert(grid_in_bounds(c) ==> self.mask_of(edge).at(c) == on_edge(
                edge,
                c.x as int,
                c.y as int,
            ));
        }
        if c.x >= 0 && c.y >= 0 && (c.x as usize) < BOARD_SIZE && (c.y as usize) < BOARD_SIZE {
            match mask.get(c) {
                Some(b) => *b,
                None => false,
            }
        } else {
            false
        }
    }

    /// All the coords on that edge, ordered from the board's outer corner
    /// inward.
    pub fn coords_on_edge(&self, edge: MapEdge) -> (r: &Vec<Coords>)
        ensures
            r@.len() == EDGE_LENGTH,
            forall|i: int| #![auto] 0 <= i < EDGE_LENGTH ==> r@[i] == edge_cell(edge, i),
    {
        proof {
            use_type_invariant(self);
        }
        match edge {
            MapEdge::TopRight => &self.top_right_list,
            MapEdge::TopLeft => &self.top_left_list,
            MapEdge::BottomLeft => &self.bottom_left_list,
            MapEdge::BottomRight => &self.bottom_right_list,
        }
    }
}

/// The `i`-th cell of `edge`, computed from the edge's corner and slope.
fn edge_cell_at(edge: MapEdge, i: usize) -> (c: Coords)
    requires
        i < EDGE_LENGTH,
    ensures
        c == edge_cell(edge, i as int),
{
    match edge {
        MapEdge::TopRight => Coords { x: (EDGE_LENGTH + i) as i32, y: (BOARD_SIZE - 1 - i) as i32 },
        MapEdge::TopLeft => Coords {
            x: (EDGE_LENGTH - 1 - i) as i32,
            y: (BOARD_SIZE - 1 - i) as i32,
        },
        MapEdge::BottomLeft => Coords { x: (EDGE_LENGTH - 1 - i) as i32, y: i as i32 },
        MapEdge::BottomRight => Coords { x: (EDGE_LENGTH + i) as i32, y: i as i32 },
    }
}

/// Trace one edge: mark its cells in a fresh mask and collect them in order.
fn populate_edge(edge: MapEdge) -> (r: (Grid<bool>, Vec<Coords>))
    ensures
        r.0.wf(),
        forall|c: Coords|
            grid_in_bounds(c) ==> r.0.at(c) == on_edge(edge, c.x as int, c.y as int),
        r.1@.len() == EDGE_LENGTH,
        forall|i: int| #![auto] 0 <= i < EDGE_LENGTH ==> r.1@[i] == edge_cell(edge, i),
{
    let mut mask = crate::grid::grid_of_copies(false);
    let mut list: Vec<Coords> = Vec::new();
    for i in 0..EDGE_LENGTH
        invariant
            mask.wf(),
            list@.len() == i,
            forall|j: int| #![auto] 0 <= j < i ==> list@[j] == edge_cell(edge, j),
            forall|c: Coords|
                grid_in_bounds(c) ==> mask.at(c) == exists|j: int|
                    0 <= j < i && edge_cell(edge, j) == c,
    {
        let c = edge_cell_at(edge, i);
        let _ = mask.set(c, true);
        list.push(c);
        proof {
            assert forall|cc: Coords| grid_in_bounds(cc) implies mask.at(cc) == exists|j: int|
                0 <= j < i + 1 && edge_cell(edge, j) == cc by {
                if cc == c {
                    assert(edge_cell(edge, i as int) == cc);
                } else {
                    assert(grid_index(cc) != grid_index(c));
                }
            }
        }
    }
    proof {
        assert forall|c: Coords| grid_in_bounds(c) implies mask.at(c) == on_edge(
            edge,
            c.x as int,
            c.y as int,
        ) by {
            lemma_on_edge_iff(edge, c.x as int, c.y as int);
        }
    }
    (mask, list)
}

impl MapBounds {
    /// Compute a cache of the map bounds.
    ///
    /// The four edges are traced first; their union forms a provisional
    /// arena mask, and each row of the arena is then filled as the
    /// contiguous span between the two boundary cells found in that row.
    pub fn new() -> MapBounds {
        let (top_right_mask, top_right_list) = populate_edge(MapEdge::TopRight);
        let (top_left_mask, top_left_list) = populate_edge(MapEdge::TopLeft);
        let (bottom_left_mask, bottom_left_list) = populate_edge(MapEdge::BottomLeft);
        let (bottom_right_mask, bottom_right_list) = populate_edge(MapEdge::BottomRight);

        // union of the edge masks
        let mut cells: Vec<bool> = Vec::new();
        for x in 0..BOARD_SIZE
            invariant
                cells@.len() == x * BOARD_SIZE,
                top_right_mask.wf(),
                top_left_mask.wf(),
                bottom_left_mask.wf(),
                bottom_right_mask.wf(),
                forall|c: Coords|
                    grid_in_bounds(c) && c.x < x ==> cells@[grid_index(c)] == on_any_edge(
                        c.x as int,
                        c.y as int,
                    ),
                forall|c: Coords|
                    grid_in_bounds(c) ==> top_right_mask.at(c) == on_edge(
                        MapEdge::TopRight,
                        c.x as int,
                        c.y as int,
                    ),
                forall|c: Coords|
                    grid_in_bounds(c) ==> top_left_mask.at(c) == on_edge(
                        MapEdge::TopLeft,
                        c.x as int,
                        c.y as int,
                    ),
                forall|c: Coords|
                    grid_in_bounds(c) ==> bottom_left_mask.at(c) == on_edge(
                        MapEdge::BottomLeft,
                        c.x as int,
                        c.y as int,
                    ),
                forall|c: Coords|
                    grid_in_bounds(c) ==> bottom_right_mask.at(c) == on_edge(
                        MapEdge::BottomRight,
                        c.x as int,
                        c.y as int,
                    ),
        {
            for y in 0..BOARD_SIZE
                invariant
                    cells@.len() == x * BOARD_SIZE + y,
                    x < BOARD_SIZE,
                    top_right_mask.wf(),
                    top_left_mask.wf(),
                    bottom_left_mask.wf(),
                    bottom_right_mask.wf(),
                    forall|c: Coords|
                        grid_in_bounds(c) && (c.x < x || (c.x == x && c.y < y))
                            ==> cells@[grid_index(c)] == on_any_edge(c.x as int, c.y as int),
                    forall|c: Coords|
                        grid_in_bounds(c) ==> top_right_mask.at(c) == on_edge(
                            MapEdge::TopRight,
                            c.x as int,
                            c.y as int,
                        ),
                    forall|c: Coords|
                        grid_in_bounds(c) ==> top_left_mask.at(c) == on_edge(
                            MapEdge::TopLeft,
                            c.x as int,
                            c.y as int,
                        ),
                    forall|c: Coords|
                        grid_in_bounds(c) ==> bottom_left_mask.at(c) == on_edge(
                            MapEdge::BottomLeft,
                            c.x as int,
                            c.y as int,
                        ),
                    forall|c: Coords|
                        grid_in_bounds(c) ==> bottom_right_mask.at(c) == on_edge(
                            MapEdge::BottomRight,
                            c.x as int,
                            c.y as int,
                        ),
            {
                let c = Coords { x: x as i32, y: y as i32 };
                let mut v = false;
                if let Some(b) = top_right_mask.get(c) {
                    v = v || *b;
                }
                if let Some(b) = top_left_mask.get(c) {
                    v = v || *b;
                }
                if let Some(b) = bottom_left_mask.get(c) {
                    v = v || *b;
                }
                if let Some(b) = bottom_right_mask.get(c) {
                    v = v || *b;
                }
                cells.push(v);
            }
        }
        let mut arena = Grid::from_cells(cells);

        // fill each row: the arena is the span between the first and second
        // boundary cell of the row
        for y in 0..BOARD_SIZE
            invariant
                arena.wf(),
                forall|c: Coords|
                    grid_in_bounds(c) && c.y < y ==> arena.at(c) == in_diamond(
                        c.x as int,
                        c.y as int,
                    ),
                forall|c: Coords|
                    grid_in_bounds(c) && c.y >= y ==> arena.at(c) == on_any_edge(
                        c.x as int,
                        c.y as int,
                    ),
        {
            proof {
                lemma_union_row(row_lo(y as int), y as int);
            }
            // find the first boundary cell of the row
            let mut x1: usize = 0;
            while x1 < BOARD_SIZE
                invariant_except_break
                    x1 <= row_lo(y as int),
                invariant
                    arena.wf(),
                    y < BOARD_SIZE,
                    forall|c: Coords|
                        grid_in_bounds(c) && c.y >= y ==> arena.at(c) == on_any_edge(
                            c.x as int,
                            c.y as int,
                        ),
                ensures
                    x1 == row_lo(y as int),
                decreases BOARD_SIZE - x1,
            {
                let c = Coords { x: x1 as i32, y: y as i32 };
                let hit = match arena.get(c) {
                    Some(b) => *b,
                    None => false,
                };
                proof {
                    lemma_union_row(x1 as int, y as int);
                }
                if hit {
                    break ;
                }
                x1 = x1 + 1;
            }
            // find the second boundary cell of the row
            let mut x2: usize = x1 + 1;
            while x2 < BOARD_SIZE
                invariant_except_break
                    x1 < x2 <= row_hi(y as int),
                invariant
                    arena.wf(),
                    y < BOARD_SIZE,
                    x1 == row_lo(y as int),
                    forall|c: Coords|
                        grid_in_bounds(c) && c.y >= y ==> arena.at(c) == on_any_edge(
                            c.x as int,
                            c.y as int,
                        ),
                ensures
                    x2 == row_hi(y as int),
                decreases BOARD_SIZE - x2,
            {
                let c = Coords { x: x2 as i32, y: y as i32 };
                let hit = match arena.get(c) {
                    Some(b) => *b,
                    None => false,
                };
                proof {
                    lemma_union_row(x2 as int, y as int);
                }
                if hit {
                    break ;
                }
                x2 = x2 + 1;
            }
            // fill the span between the two boundary cells
            for x in 0..BOARD_SIZE
                invariant
                    arena.wf(),
                    y < BOARD_SIZE,
                    x1 == row_lo(y as int),
                    x2 == row_hi(y as int),
                    forall|c: Coords|
                        grid_in_bounds(c) && c.y < y ==> arena.at(c) == in_diamond(
                            c.x as int,
                            c.y as int,
                        ),
                    forall|c: Coords|
                        grid_in_bounds(c) && c.y == y && c.x < x ==> arena.at(c) == in_diamond(
                            c.x as int,
                            c.y as int,
                        ),
                    forall|c: Coords|
                        grid_in_bounds(c) && (c.y > y || (c.y == y && c.x >= x)) ==> arena.at(c)
                            == on_any_edge(c.x as int, c.y as int),
            {
                let c = Coords { x: x as i32, y: y as i32 };
                let _ = arena.set(c, x1 <= x && x <= x2);
                proof {
                    lemma_union_row(x as int, y as int);
                    assert forall|cc: Coords| grid_in_bounds(cc) && cc != c implies grid_index(cc)
                        != grid_index(c) by {}
                }
            }
        }

        MapBounds {
            arena,
            top_right_mask,
            top_left_mask,
            bottom_left_mask,
            bottom_right_mask,
            top_right_list,
            top_left_list,
            bottom_left_list,
            bottom_right_list,
        }
    }
}

} // verus!
