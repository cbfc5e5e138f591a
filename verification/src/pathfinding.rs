//! The path predictor: a multi-phase breadth-first search that reproduces
//! the game engine's deterministic movement rule.
//!
//! Phase one floods the pocket around the start cell looking for the most
//! ideal destination; phase two assigns exact breadth-first distances from
//! the destination set; phase three walks the distance field from the
//! start, breaking ties by the engine's direction rules.

use core::cmp::Ordering;
use vstd::prelude::*;
use vstd::set_lib::lemma_len_subset;
use vstd::set_lib::lemma_int_range;
use vstd::set_lib::set_int_range;

use crate::bounds::{edge_cell, in_diamond, lemma_diamond_in_bounds, lemma_on_edge_iff, on_edge, MapBounds, MapEdge, BOARD_SIZE, EDGE_LENGTH};
use crate::coords::{down, left, right, up, Coords};
use crate::grid::{grid_in_bounds, grid_index, Grid};
use crate::map::{MapState, Unit};
use crate::units::StructureUnitType;

verus! {

/// Per-cell state while computing a path.
#[derive(Copy, Clone, PartialEq, Eq, Structural, Debug)]
pub enum Node {
    Invalid,
    Wall,
    Open { visited_idealness: bool, pathlength: Option<u32> },
}

/// Axis of the last move taken while reconstructing a path.
#[derive(Copy, Clone, PartialEq, Eq, Structural, Debug)]
pub enum LastDirection {
    Horizontal,
    Vertical,
}

/// Pathfinding from a particular location fails if that location is
/// blocked by a structure; the offending unit is carried along.
#[derive(Debug)]
pub struct StartedAtWall(pub Coords, pub Unit<StructureUnitType>);

/// The pathlength recorded in a node, if any.
pub open spec fn node_pl(n: Node) -> Option<u32> {
    match n {
        Node::Open { pathlength, .. } => pathlength,
        _ => None,
    }
}

/// Whether a node is open (inside the arena and not blocked).
pub open spec fn node_open(n: Node) -> bool {
    n matches Node::Open { .. }
}

/// Whether a node has been visited by the idealness search.
pub open spec fn node_visited(n: Node) -> bool {
    match n {
        Node::Open { visited_idealness, .. } => visited_idealness,
        _ => false,
    }
}

/// Two nodes of the same kind: both invalid, both walls, or both open.
pub open spec fn same_kind(a: Node, b: Node) -> bool {
    &&& (a is Invalid <==> b is Invalid)
    &&& (a is Wall <==> b is Wall)
    &&& (node_open(a) <==> node_open(b))
}

/// The node a board cell gives rise to: out-of-arena cells are invalid,
/// cells holding a structure are walls, all others are open and unvisited.
pub open spec fn spec_initial_node(board: MapState, c: Coords) -> Node {
    if !in_diamond(c.x as int, c.y as int) {
        Node::Invalid
    } else if board.wall_at(c) is Some {
        Node::Wall
    } else {
        Node::Open { visited_idealness: false, pathlength: None }
    }
}

/// The idealness score of a cell: a cell on the target edge always wins;
/// any other cell scores by how close its row is to the target's vertical
/// side plus how close its column is to the target's horizontal side.
pub open spec fn spec_idealness(x: int, y: int, target: MapEdge) -> int {
    if on_edge(target, x, y) {
        u32::MAX as int
    } else {
        let a = match target {
            MapEdge::TopLeft | MapEdge::TopRight => (BOARD_SIZE as int) * y,
            MapEdge::BottomLeft | MapEdge::BottomRight => (BOARD_SIZE as int) * (BOARD_SIZE - 1
                - y),
        };
        let b = match target {
            MapEdge::TopRight | MapEdge::BottomRight => x,
            MapEdge::TopLeft | MapEdge::BottomLeft => (BOARD_SIZE as int) - 1 - x,
        };
        a + b
    }
}

/// The idealness score of any non-edge cell fits comfortably below the
/// on-edge score.
pub proof fn lemma_idealness_bounded(x: int, y: int, target: MapEdge)
    requires
        in_diamond(x, y),
    ensures
        0 <= spec_idealness(x, y, target) <= u32::MAX as int,
        !on_edge(target, x, y) ==> spec_idealness(x, y, target) < u32::MAX as int,
{
}

/// For a right-side target, moving one cell toward the right edge at fixed
/// height strictly increases idealness.
pub proof fn lemma_idealness_increases_toward_right(x: int, y: int, target: MapEdge)
    requires
        target == MapEdge::TopRight || target == MapEdge::BottomRight,
        in_diamond(x, y),
        in_diamond(x + 1, y),
        !on_edge(target, x, y),
    ensures
        spec_idealness(x + 1, y, target) > spec_idealness(x, y, target),
{
    lemma_idealness_bounded(x, y, target);
}

/// Compute the idealness score of a cell, or fail with the cell itself
/// when it lies outside the arena.
pub fn idealness_of(bounds: &MapBounds, coords: Coords, target: MapEdge) -> (r: Result<u32, Coords>)
    ensures
        in_diamond(coords.x as int, coords.y as int) ==> (r matches Ok(v) && v as int
            == spec_idealness(coords.x as int, coords.y as int, target)),
        !in_diamond(coords.x as int, coords.y as int) ==> r == Err::<u32, Coords>(coords),
{
    if bounds.is_in_arena(coords) {
        if bounds.is_on_edge(target, coords) {
            Ok(u32::MAX)
        } else {
            proof {
                lemma_diamond_in_bounds(coords.x as int, coords.y as int);
            }
            let x = coords.x as u32;
            let y = coords.y as u32;
            proof {
                assert(x < BOARD_SIZE && y < BOARD_SIZE);
                assert((BOARD_SIZE as u32) * y <= 756) by (nonlinear_arith)
                    requires
                        y < 28,
                ;
            }
            let a: u32 = match target {
                MapEdge::TopLeft | MapEdge::TopRight => (BOARD_SIZE as u32) * y,
                MapEdge::BottomLeft | MapEdge::BottomRight => (BOARD_SIZE as u32) * (
                (BOARD_SIZE as u32) - 1 - y),
            };
            let b: u32 = match target {
                MapEdge::TopRight | MapEdge::BottomRight => x,
                MapEdge::TopLeft | MapEdge::BottomLeft => (BOARD_SIZE as u32) - 1 - x,
            };
            Ok(a + b)
        }
    } else {
        Err(coords)
    }
}

/// Classify a move as vertical or horizontal; a move that changes both
/// coordinates, or neither, is a contract violation reported with the
/// offending pair.
pub fn direction_difference(from: Coords, to: Coords) -> (r: Result<LastDirection, [Coords; 2]>)
    ensures
        from.x == to.x && from.y != to.y ==> r == Ok::<LastDirection, [Coords; 2]>(
            LastDirection::Vertical,
        ),
        from.x != to.x && from.y == to.y ==> r == Ok::<LastDirection, [Coords; 2]>(
            LastDirection::Horizontal,
        ),
        !(from.x == to.x && from.y != to.y) && !(from.x != to.x && from.y == to.y) ==> (r matches
        Err(pair) && pair@ == seq![from, to]),
{
    if from.x == to.x && from.y != to.y {
        Ok(LastDirection::Vertical)
    } else if from.x != to.x && from.y == to.y {
        Ok(LastDirection::Horizontal)
    } else {
        let pair = [from, to];
        proof {
            assert(pair@ =~= seq![from, to]);
        }
        Err(pair)
    }
}

/// True when `b` is one of the four cells adjacent to `a`.
pub open spec fn spec_adjacent(a: Coords, b: Coords) -> bool {
    b == up(a) || b == down(a) || b == left(a) || b == right(a)
}

/// The axis of the move from `c` to an adjacent cell `n`.
pub open spec fn spec_axis_of(c: Coords, n: Coords) -> LastDirection {
    if n.x == c.x {
        LastDirection::Vertical
    } else {
        LastDirection::Horizontal
    }
}

/// Whether the move to `a` heads toward the target edge when compared with
/// the move to `b`: for each target, toward means not losing ground on
/// either axis.
pub open spec fn spec_toward(target: MapEdge, a: Coords, b: Coords) -> bool {
    match target {
        MapEdge::TopRight => !(b.x > a.x || b.y > a.y),
        MapEdge::TopLeft => !(b.x < a.x || b.y > a.y),
        MapEdge::BottomRight => !(b.x > a.x || b.y < a.y),
        MapEdge::BottomLeft => !(b.x < a.x || b.y < a.y),
    }
}

/// The engine's tie-break among equally distant candidate moves from
/// `curr`: a move whose axis differs from the previous move's axis wins;
/// on the very first move a vertical move beats a horizontal one; any
/// remaining tie goes to the move that heads toward the target edge.
pub open spec fn spec_prefers(
    curr: Coords,
    a: Coords,
    b: Coords,
    last: Option<LastDirection>,
    target: MapEdge,
) -> bool {
    let da = spec_axis_of(curr, a);
    let db = spec_axis_of(curr, b);
    match last {
        None => if da != db {
            da == LastDirection::Vertical
        } else {
            spec_toward(target, a, b)
        },
        Some(l) => if da != l && db == l {
            true
        } else if da == l && db != l {
            false
        } else {
            spec_toward(target, a, b)
        },
    }
}

/// Among three distinct candidate moves from one cell the preference
/// relation is transitive.
pub proof fn lemma_prefers_trans(
    curr: Coords,
    a: Coords,
    b: Coords,
    c: Coords,
    last: Option<LastDirection>,
    target: MapEdge,
)
    requires
        spec_adjacent(curr, a),
        spec_adjacent(curr, b),
        spec_adjacent(curr, c),
        a != b,
        b != c,
        a != c,
        spec_prefers(curr, a, b, last, target),
        spec_prefers(curr, b, c, last, target),
    ensures
        spec_prefers(curr, a, c, last, target),
{
}

/// Compare two candidate moves from `curr` by the engine's direction
/// rules: `Greater` when the first is preferred, `Less` when the second
/// is, and an error carrying the offending pair when either move is not
/// axis-aligned.
pub fn compare_by_directional_correctness(
    curr: Coords,
    c1: Coords,
    c2: Coords,
    curr_direction: Option<LastDirection>,
    target: MapEdge,
) -> (r: Result<Ordering, [Coords; 2]>)
    requires
        i32::MIN < curr.x < i32::MAX,
        i32::MIN < curr.y < i32::MAX,
    ensures
        spec_adjacent(curr, c1) && spec_adjacent(curr, c2) && c1 != c2 ==> (r matches Ok(o) && (o
            == Ordering::Greater <==> spec_prefers(curr, c1, c2, curr_direction, target)) && (o
            == Ordering::Less <==> spec_prefers(curr, c2, c1, curr_direction, target))),
{
    let direction1 = match direction_difference(curr, c1) {
        Ok(d) => d,
        Err(pair) => {
            return Err(pair);
        },
    };
    let direction2 = match direction_difference(curr, c2) {
        Ok(d) => d,
        Err(pair) => {
            return Err(pair);
        },
    };

    let toward = match target {
        MapEdge::TopRight => !(c2.x > c1.x || c2.y > c1.y),
        MapEdge::TopLeft => !(c2.x < c1.x || c2.y > c1.y),
        MapEdge::BottomRight => !(c2.x > c1.x || c2.y < c1.y),
        MapEdge::BottomLeft => !(c2.x < c1.x || c2.y < c1.y),
    };

    match curr_direction {
        None => {
            if direction1 != direction2 {
                // the very first move prefers to be vertical
                if direction1 == LastDirection::Vertical {
                    Ok(Ordering::Greater)
                } else {
                    Ok(Ordering::Less)
                }
            } else if toward {
                Ok(Ordering::Greater)
            } else {
                Ok(Ordering::Less)
            }
        },
        Some(last) => {
            // a change of axis beats continuing straight
            if direction1 != last && direction2 == last {
                Ok(Ordering::Greater)
            } else if direction1 == last && direction2 != last {
                Ok(Ordering::Less)
            } else if toward {
                Ok(Ordering::Greater)
            } else {
                Ok(Ordering::Less)
            }
        },
    }
}

/// Adjacency is symmetric for cells on the board.
pub proof fn lemma_adjacent_symmetric(a: Coords, b: Coords)
    requires
        grid_in_bounds(a),
        grid_in_bounds(b),
        spec_adjacent(a, b),
    ensures
        spec_adjacent(b, a),
{
}

/// True when `n` is a candidate move from `c`: adjacent, inside the
/// arena, open, and already assigned a pathlength.
pub open spec fn spec_candidate(g: Grid<Node>, c: Coords, n: Coords) -> bool {
    &&& spec_adjacent(c, n)
    &&& in_diamond(n.x as int, n.y as int)
    &&& node_pl(g.at(n)) is Some
}

/// The pathlength assigned to a candidate.
pub open spec fn spec_candidate_pl(g: Grid<Node>, n: Coords) -> u32 {
    node_pl(g.at(n))->Some_0
}

/// The move the engine's rules select from `curr`: a candidate of minimal
/// pathlength, maximal under the direction preference among its equals.
#[verifier::opaque]
pub open spec fn spec_chosen_move(
    g: Grid<Node>,
    curr: Coords,
    last: Option<LastDirection>,
    target: MapEdge,
    n: Coords,
) -> bool {
    &&& spec_candidate(g, curr, n)
    &&& (forall|m: Coords|
        spec_candidate(g, curr, m) ==> spec_candidate_pl(g, n) <= spec_candidate_pl(g, m))
    &&& (forall|m: Coords|
        spec_candidate(g, curr, m) && spec_candidate_pl(g, m) == spec_candidate_pl(g, n) && m != n
            ==> !spec_prefers(curr, m, n, last, target))
}

/// The axis of the move that entered position `i - 1` of a path: the
/// preceding move of the step into position `i`.
pub open spec fn spec_path_last_dir(p: Seq<Coords>, i: int) -> Option<LastDirection> {
    if i <= 1 {
        None
    } else {
        Some(spec_axis_of(p[i - 2], p[i - 1]))
    }
}

/// Read the pathlength of a potential move, when the cell is in the arena
/// and carries one.
fn move_pl(grid: &Grid<Node>, bounds: &MapBounds, n: Coords) -> (r: Option<u32>)
    requires
        grid.wf(),
    ensures
        r is Some <==> (in_diamond(n.x as int, n.y as int) && node_pl(grid.at(n)) is Some),
        r is Some ==> r == node_pl(grid.at(n)),
{
    if bounds.is_in_arena(n) {
        proof {
            lemma_diamond_in_bounds(n.x as int, n.y as int);
        }
        match grid.get(n) {
            Some(node) => match node {
                Node::Open { pathlength: Some(pl), .. } => Some(*pl),
                _ => None,
            },
            None => None,
        }
    } else {
        None
    }
}

/// The next move of the reconstruction: among the adjacent arena cells
/// with an assigned pathlength, the ones with the smallest pathlength
/// compete, and the engine's direction rules decide between them.
pub fn next_move(
    curr: Coords,
    target: MapEdge,
    grid: &Grid<Node>,
    bounds: &MapBounds,
    curr_direction: Option<LastDirection>,
) -> (r: Option<Coords>)
    requires
        grid.wf(),
        in_diamond(curr.x as int, curr.y as int),
    ensures
        r matches Some(n) ==> spec_chosen_move(*grid, curr, curr_direction, target, n),
        r is None ==> forall|m: Coords| !spec_candidate(*grid, curr, m),
{
    proof {
        lemma_diamond_in_bounds(curr.x as int, curr.y as int);
    }
    let neighbors = curr.neighbors();
    let mut best: Option<(Coords, u32)> = None;
    for k in 0..4usize
        invariant
            grid.wf(),
            in_diamond(curr.x as int, curr.y as int),
            i32::MIN < curr.x < i32::MAX,
            i32::MIN < curr.y < i32::MAX,
            neighbors@ == seq![up(curr), down(curr), left(curr), right(curr)],
            best is None ==> forall|j: int|
                0 <= j < k ==> !spec_candidate(*grid, curr, #[trigger] neighbors@[j]),
            best matches Some(p) ==> {
                &&& spec_candidate(*grid, curr, p.0)
                &&& p.1 == spec_candidate_pl(*grid, p.0)
                &&& forall|j: int|
                    0 <= j < k && spec_candidate(*grid, curr, #[trigger] neighbors@[j]) ==> p.1
                        <= spec_candidate_pl(*grid, neighbors@[j])
                &&& forall|j: int|
                    0 <= j < k && spec_candidate(*grid, curr, #[trigger] neighbors@[j])
                        && spec_candidate_pl(*grid, neighbors@[j]) == p.1 && neighbors@[j] != p.0
                        ==> !spec_prefers(curr, neighbors@[j], p.0, curr_direction, target)
            },
    {
        let n = neighbors[k];
        if let Some(pl) = move_pl(grid, bounds, n) {
            match best {
                None => {
                    best = Some((n, pl));
                },
                Some((bc, bpl)) => {
                    if pl < bpl {
                        proof {
                            assert forall|j: int|
                                0 <= j < k + 1 && spec_candidate(
                                    *grid,
                                    curr,
                                    #[trigger] neighbors@[j],
                                ) && spec_candidate_pl(*grid, neighbors@[j]) == pl
                                    && neighbors@[j] != n implies !spec_prefers(
                                curr,
                                neighbors@[j],
                                n,
                                curr_direction,
                                target,
                            ) by {
                                assert(spec_candidate_pl(*grid, neighbors@[j]) >= bpl);
                            }
                        }
                        best = Some((n, pl));
                    } else if pl == bpl && n != bc {
                        let prefer_new = match compare_by_directional_correctness(
                            curr,
                            n,
                            bc,
                            curr_direction,
                            target,
                        ) {
                            Ok(Ordering::Greater) => true,
                            _ => false,
                        };
                        if prefer_new {
                            proof {
                                assert forall|j: int|
                                    0 <= j < k + 1 && spec_candidate(
                                        *grid,
                                        curr,
                                        #[trigger] neighbors@[j],
                                    ) && spec_candidate_pl(*grid, neighbors@[j]) == pl
                                        && neighbors@[j] != n implies !spec_prefers(
                                    curr,
                                    neighbors@[j],
                                    n,
                                    curr_direction,
                                    target,
                                ) by {
                                    let m = neighbors@[j];
                                    if m == bc {
                                        // the displaced best is not preferred back
                                    } else if spec_prefers(curr, m, n, curr_direction, target) {
                                        lemma_prefers_trans(
                                            curr,
                                            m,
                                            n,
                                            bc,
                                            curr_direction,
                                            target,
                                        );
                                    }
                                }
                            }
                            best = Some((n, pl));
                        }
                    }
                },
            }
        }
    }
    proof {
        assert forall|m: Coords| spec_adjacent(curr, m) implies (m == neighbors@[0] || m
            == neighbors@[1] || m == neighbors@[2] || m == neighbors@[3]) by {}
        reveal(spec_chosen_move);
        if let Some((bc, bpl)) = best {
            assert(spec_chosen_move(*grid, curr, curr_direction, target, bc));
        }
    }
    match best {
        Some((bc, _)) => Some(bc),
        None => None,
    }
}

/// Two nodes agreeing on kind and pathlength (only the visited flag may
/// differ).
pub open spec fn same_kind_and_pl(a: Node, b: Node) -> bool {
    same_kind(a, b) && node_pl(a) == node_pl(b)
}

/// Two nodes agreeing on kind and visited flag (only the pathlength may
/// differ).
pub open spec fn same_kind_and_visited(a: Node, b: Node) -> bool {
    same_kind(a, b) && node_visited(a) == node_visited(b)
}

/// Build the per-cell node grid a prediction starts from.
fn build_node_grid(board: &MapState, bounds: &MapBounds) -> (g: Grid<Node>)
    requires
        board.wf(),
    ensures
        g.wf(),
        forall|c: Coords| grid_in_bounds(c) ==> #[trigger] g.at(c) == spec_initial_node(*board, c),
{
    let mut cells: Vec<Node> = Vec::new();
    for x in 0..BOARD_SIZE
        invariant
            board.wf(),
            cells@.len() == x * BOARD_SIZE,
            forall|c: Coords|
                grid_in_bounds(c) && c.x < x ==> cells@[grid_index(c)] == spec_initial_node(
                    *board,
                    c,
                ),
    {
        for y in 0..BOARD_SIZE
            invariant
                board.wf(),
                x < BOARD_SIZE,
                cells@.len() == x * BOARD_SIZE + y,
                forall|c: Coords|
                    grid_in_bounds(c) && (c.x < x || (c.x == x && c.y < y)) ==> cells@[grid_index(
                        c,
                    )] == spec_initial_node(*board, c),
        {
            let c = Coords { x: x as i32, y: y as i32 };
            let node = if !bounds.is_in_arena(c) {
                Node::Invalid
            } else if self_wall_present(board, c) {
                Node::Wall
            } else {
                Node::Open { visited_idealness: false, pathlength: None }
            };
            cells.push(node);
        }
    }
    Grid::from_cells(cells)
}

/// Whether a structure stands at `c`.
fn self_wall_present(board: &MapState, c: Coords) -> (r: bool)
    requires
        board.wf(),
        grid_in_bounds(c),
    ensures
        r == (board.wall_at(c) is Some),
{
    board.wall_unit(c).is_some()
}

/// An owned copy of the target edge's cell list.
fn copy_edge_list(bounds: &MapBounds, target: MapEdge) -> (v: Vec<Coords>)
    ensures
        v@.len() == EDGE_LENGTH,
        forall|i: int| #![auto] 0 <= i < EDGE_LENGTH ==> v@[i] == edge_cell(target, i),
{
    let list = bounds.coords_on_edge(target);
    let mut v: Vec<Coords> = Vec::new();
    let n = list.len();
    for i in 0..n
        invariant
            n == EDGE_LENGTH,
            list@.len() == EDGE_LENGTH,
            forall|j: int| #![auto] 0 <= j < EDGE_LENGTH ==> list@[j] == edge_cell(target, j),
            v@.len() == i,
            forall|j: int| #![auto] 0 <= j < i ==> v@[j] == edge_cell(target, j),
    {
        v.push(list[i]);
    }
    v
}


/// The working state of the idealness flood: the queue starts at the
/// start cell, holds only reachable board cells, the visited cells are
/// exactly the enqueued ones past the start, none of them lies on the
/// target edge, and every processed cell's open neighborhood has been
/// visited.
#[verifier::opaque]
spec fn spec_flood_inv(
    gold: Grid<Node>,
    g: Grid<Node>,
    q: Seq<Coords>,
    head: int,
    start: Coords,
    target: MapEdge,
) -> bool {
    &&& q.len() >= 1 && q[0] == start
    &&& (forall|j: int| 0 <= j < q.len() ==> grid_in_bounds(#[trigger] q[j]))
    &&& (forall|j: int| 0 <= j < q.len() ==> spec_grid_reaches(gold, start, #[trigger] q[j]))
    &&& (forall|c: Coords|
        grid_in_bounds(c) && node_visited(#[trigger] g.at(c)) ==> spec_grid_reaches(
            gold,
            start,
            c,
        ))
    &&& (forall|c: Coords|
        grid_in_bounds(c) && node_visited(#[trigger] g.at(c)) ==> !on_edge(
            target,
            c.x as int,
            c.y as int,
        ))
    &&& (forall|c: Coords|
        grid_in_bounds(c) && node_visited(#[trigger] g.at(c)) ==> exists|j: int|
            0 <= j < q.len() && q[j] == c)
    &&& (forall|j: int, b: Coords|
        0 <= j < head && grid_in_bounds(b) && spec_adjacent(#[trigger] q[j], b) && in_diamond(
            b.x as int,
            b.y as int,
        ) && node_open(g.at(b)) ==> node_visited(#[trigger] g.at(b)))
}

/// The flood starts with the start cell queued, nothing visited and
/// nothing processed.
proof fn lemma_flood_start(g: Grid<Node>, start: Coords, target: MapEdge)
    requires
        in_diamond(start.x as int, start.y as int),
        node_open(g.at(start)),
        forall|c: Coords| grid_in_bounds(c) ==> !node_visited(#[trigger] g.at(c)),
    ensures
        spec_flood_inv(g, g, seq![start], 0, start, target),
{
    reveal(spec_flood_inv);
    lemma_diamond_in_bounds(start.x as int, start.y as int);
    lemma_grid_reaches_self(g, start);
    assert(seq![start][0] == start);
}

/// Popping a queued cell of the flood.
proof fn lemma_flood_pop(
    gold: Grid<Node>,
    g: Grid<Node>,
    q: Seq<Coords>,
    head: int,
    start: Coords,
    target: MapEdge,
)
    requires
        spec_flood_inv(gold, g, q, head, start, target),
        0 <= head < q.len(),
    ensures
        grid_in_bounds(q[head]),
        spec_grid_reaches(gold, start, q[head]),
{
    reveal(spec_flood_inv);
}

/// Marking one fresh open neighbor keeps the flood state, with the
/// neighbor enqueued.
proof fn lemma_flood_mark(
    gold: Grid<Node>,
    gpre: Grid<Node>,
    gpost: Grid<Node>,
    q: Seq<Coords>,
    head: int,
    start: Coords,
    target: MapEdge,
    curr: Coords,
    n: Coords,
)
    requires
        spec_flood_inv(gold, gpre, q, head, start, target),
        0 <= head < q.len(),
        q[head] == curr,
        spec_adjacent(curr, n),
        in_diamond(n.x as int, n.y as int),
        node_open(gold.at(n)),
        !on_edge(target, n.x as int, n.y as int),
        node_open(gpost.at(n)),
        node_visited(gpost.at(n)),
        forall|c2: Coords| grid_in_bounds(c2) && c2 != n ==> gpost.at(c2) == gpre.at(c2),
    ensures
        spec_flood_inv(gold, gpost, q.push(n), head, start, target),
{
    reveal(spec_flood_inv);
    let qn = q.push(n);
    lemma_diamond_in_bounds(n.x as int, n.y as int);
    lemma_grid_reaches_step(gold, start, curr, n);
    assert(qn[0] == start);
    assert forall|c: Coords|
        grid_in_bounds(c) && node_visited(#[trigger] gpost.at(c)) implies exists|j: int|
        0 <= j < qn.len() && qn[j] == c by {
        if c == n {
            assert(qn[qn.len() - 1] == n);
        } else {
            assert(node_visited(gpre.at(c)));
            let j = choose|j: int| 0 <= j < q.len() && q[j] == c;
            assert(qn[j] == c);
        }
    }
    assert forall|j: int, b: Coords|
        0 <= j < head && grid_in_bounds(b) && spec_adjacent(#[trigger] qn[j], b) && in_diamond(
            b.x as int,
            b.y as int,
        ) && node_open(gpost.at(b)) implies node_visited(#[trigger] gpost.at(b)) by {
        assert(qn[j] == q[j]);
        if b != n {
            assert(gpost.at(b) == gpre.at(b));
        }
    }
}

/// Once every open in-arena neighbor of the popped cell is visited, the
/// cell counts as processed.
proof fn lemma_flood_finish(
    gold: Grid<Node>,
    g: Grid<Node>,
    q: Seq<Coords>,
    head: int,
    start: Coords,
    target: MapEdge,
    curr: Coords,
)
    requires
        spec_flood_inv(gold, g, q, head, start, target),
        0 <= head < q.len(),
        q[head] == curr,
        forall|b: Coords|
            grid_in_bounds(b) && spec_adjacent(curr, b) && in_diamond(b.x as int, b.y as int)
                && node_open(g.at(b)) ==> node_visited(#[trigger] g.at(b)),
    ensures
        spec_flood_inv(gold, g, q, head + 1, start, target),
{
    reveal(spec_flood_inv);
    assert forall|j: int, b: Coords|
        0 <= j < head + 1 && grid_in_bounds(b) && spec_adjacent(#[trigger] q[j], b) && in_diamond(
            b.x as int,
            b.y as int,
        ) && node_open(g.at(b)) implies node_visited(#[trigger] g.at(b)) by {
        if j == head {
            assert(q[j] == curr);
        }
    }
}

/// A walk from the start through the exhausted flood stays visited: its
/// endpoint was visited, or is the start itself.
proof fn lemma_flood_complete_path(
    gold: Grid<Node>,
    g: Grid<Node>,
    q: Seq<Coords>,
    start: Coords,
    target: MapEdge,
    p: Seq<Coords>,
)
    requires
        spec_flood_inv(gold, g, q, q.len() as int, start, target),
        forall|c: Coords| grid_in_bounds(c) ==> same_kind_and_pl(#[trigger] gold.at(c), g.at(c)),
        spec_open_path(gold, p),
        p.first() == start,
    ensures
        node_visited(g.at(p.last())) || p.last() == start,
    decreases p.len(),
{
    reveal(spec_flood_inv);
    if p.len() > 1 {
        let p0 = p.drop_last();
        assert(spec_open_path(gold, p0)) by {
            assert(forall|i: int|
                0 <= i < p0.len() ==> in_diamond((#[trigger] p0[i]).x as int, p0[i].y as int));
            assert(forall|i: int| 0 <= i < p0.len() ==> node_open(gold.at(#[trigger] p0[i])));
            assert(forall|i: int|
                0 < i < p0.len() ==> spec_adjacent(p0[i - 1], #[trigger] p0[i]));
        }
        assert(p0.first() == start);
        lemma_flood_complete_path(gold, g, q, start, target, p0);
        let a = p[p.len() - 2];
        let b = p.last();
        assert(p0.last() == a);
        lemma_diamond_in_bounds(a.x as int, a.y as int);
        lemma_diamond_in_bounds(b.x as int, b.y as int);
        assert(node_open(g.at(b)));
        let j = if a == start {
            0int
        } else {
            choose|j: int| 0 <= j < q.len() && q[j] == a
        };
        assert(q[j] == a);
        assert(node_visited(g.at(b)));
    }
}

/// After the flood exhausts its queue, every cell of the start's pocket
/// has been visited (or is the start), and none of it touches the target
/// edge.
proof fn lemma_flood_exhausted(
    gold: Grid<Node>,
    g: Grid<Node>,
    q: Seq<Coords>,
    start: Coords,
    target: MapEdge,
    c: Coords,
)
    requires
        spec_flood_inv(gold, g, q, q.len() as int, start, target),
        forall|c2: Coords|
            grid_in_bounds(c2) ==> same_kind_and_pl(#[trigger] gold.at(c2), g.at(c2)),
        !on_edge(target, start.x as int, start.y as int),
        spec_grid_reaches(gold, start, c),
    ensures
        in_diamond(c.x as int, c.y as int),
        node_visited(g.at(c)) || c == start,
        !on_edge(target, c.x as int, c.y as int),
{
    reveal(spec_grid_reaches);
    let p = choose|p: Seq<Coords>|
        #[trigger] spec_open_path(gold, p) && p.first() == start && p.last() == c;
    lemma_flood_complete_path(gold, g, q, start, target, p);
    lemma_diamond_in_bounds(c.x as int, c.y as int);
    if c != start {
        reveal(spec_flood_inv);
    }
}

/// Phase one: search the pocket around the start cell for the most ideal
/// destination.
///
/// If the start cell, or any open cell reachable from it, lies on the
/// target edge, the ideal set is that edge's full cell list; otherwise it
/// is the single best-scoring cell of the pocket, ties keeping the first
/// cell found. Only visited flags change in the node grid.
#[verifier::rlimit(100)]
#[verifier::spinoff_prover]
fn idealness_search(bounds: &MapBounds, start: Coords, target: MapEdge, grid: &mut Grid<Node>) -> (r:
    Vec<Coords>)
    requires
        old(grid).wf(),
        in_diamond(start.x as int, start.y as int),
        node_open(old(grid).at(start)),
        forall|c: Coords| grid_in_bounds(c) ==> !node_visited(old(grid).at(c)),
    ensures
        final(grid).wf(),
        forall|c: Coords|
            grid_in_bounds(c) ==> same_kind_and_pl(old(grid).at(c), final(grid).at(c)),
        on_edge(target, start.x as int, start.y as int) ==> (r@.len() == EDGE_LENGTH && (forall|
            i: int,
        | #![auto] 0 <= i < EDGE_LENGTH ==> r@[i] == edge_cell(target, i))),
        (r@.len() == EDGE_LENGTH && (forall|i: int| #![auto]
            0 <= i < EDGE_LENGTH ==> r@[i] == edge_cell(target, i))) || (r@.len() == 1
            && in_diamond(r@[0].x as int, r@[0].y as int) && node_open(final(grid).at(r@[0]))),
        (exists|c: Coords|
            #[trigger] spec_grid_reaches(*old(grid), start, c) && on_edge(
                target,
                c.x as int,
                c.y as int,
            )) <==> r@.len() == EDGE_LENGTH,
        r@.len() != EDGE_LENGTH ==> (r@.len() == 1 && spec_grid_reaches(*old(grid), start, r@[0])
            && (forall|c: Coords|
            #[trigger] spec_grid_reaches(*old(grid), start, c) ==> spec_idealness(
                c.x as int,
                c.y as int,
                target,
            ) <= spec_idealness(r@[0].x as int, r@[0].y as int, target))),
{
    // short circuit if start is on the edge
    if bounds.is_on_edge(target, start) {
        proof {
            lemma_grid_reaches_self(*old(grid), start);
        }
        return copy_edge_list(bounds, target);
    }

    proof {
        lemma_diamond_in_bounds(start.x as int, start.y as int);
    }
    let mut queue: Vec<Coords> = Vec::new();
    queue.push(start);
    let mut head: usize = 0;

    let mut best_tile = start;
    let mut best_idealness = match idealness_of(bounds, start, target) {
        Ok(v) => v,
        Err(_) => vstd::pervasive::unreached(),
    };

    let ghost mut visited: Set<int> = Set::empty();
    proof {
        lemma_int_range(0, (BOARD_SIZE * BOARD_SIZE) as int);
        lemma_grid_reaches_self(*old(grid), start);
        lemma_flood_start(*grid, start, target);
        assert(queue@ =~= seq![start]);
    }

    while head < queue.len()
        invariant
            grid.wf(),
            forall|c: Coords|
                grid_in_bounds(c) ==> same_kind_and_pl(old(grid).at(c), grid.at(c)),
            head <= queue.len(),
            spec_flood_inv(*old(grid), *grid, queue@, head as int, start, target),
            !on_edge(target, start.x as int, start.y as int),
            in_diamond(best_tile.x as int, best_tile.y as int),
            node_open(grid.at(best_tile)),
            spec_grid_reaches(*old(grid), start, best_tile),
            best_idealness as int == spec_idealness(
                best_tile.x as int,
                best_tile.y as int,
                target,
            ),
            spec_idealness(start.x as int, start.y as int, target) <= best_idealness,
            forall|c: Coords|
                grid_in_bounds(c) && node_visited(#[trigger] grid.at(c)) ==> spec_idealness(
                    c.x as int,
                    c.y as int,
                    target,
                ) <= best_idealness,
            visited.finite(),
            visited.subset_of(set_int_range(0, (BOARD_SIZE * BOARD_SIZE) as int)),
            forall|c: Coords|
                grid_in_bounds(c) ==> (node_visited(#[trigger] grid.at(c)) <==> visited.contains(
                    grid_index(c),
                )),
        decreases 2 * ((BOARD_SIZE * BOARD_SIZE) as int - visited.len()) + queue@.len() - head,
    {
        proof {
            lemma_int_range(0, (BOARD_SIZE * BOARD_SIZE) as int);
            lemma_len_subset(visited, set_int_range(0, (BOARD_SIZE * BOARD_SIZE) as int));
            lemma_flood_pop(*old(grid), *grid, queue@, head as int, start, target);
        }
        let ghost measure0: int = 2 * ((BOARD_SIZE * BOARD_SIZE) as int - visited.len())
            + queue@.len() - head;
        let curr = queue[head];
        head = head + 1;
        let neighbors = curr.neighbors();
        for k in 0..4usize
            invariant
                grid.wf(),
                forall|c: Coords|
                    grid_in_bounds(c) ==> same_kind_and_pl(old(grid).at(c), grid.at(c)),
                1 <= head <= queue.len(),
                curr == queue@[head - 1],
                grid_in_bounds(curr),
                spec_grid_reaches(*old(grid), start, curr),
                spec_flood_inv(*old(grid), *grid, queue@, head - 1, start, target),
                !on_edge(target, start.x as int, start.y as int),
                neighbors@ == seq![up(curr), down(curr), left(curr), right(curr)],
                forall|k2: int|
                    0 <= k2 < k && in_diamond(
                        (#[trigger] neighbors@[k2]).x as int,
                        neighbors@[k2].y as int,
                    ) && node_open(grid.at(neighbors@[k2])) ==> node_visited(
                        grid.at(neighbors@[k2]),
                    ),
                in_diamond(best_tile.x as int, best_tile.y as int),
                node_open(grid.at(best_tile)),
                spec_grid_reaches(*old(grid), start, best_tile),
                best_idealness as int == spec_idealness(
                    best_tile.x as int,
                    best_tile.y as int,
                    target,
                ),
                spec_idealness(start.x as int, start.y as int, target) <= best_idealness,
                forall|c: Coords|
                    grid_in_bounds(c) && node_visited(#[trigger] grid.at(c)) ==> spec_idealness(
                        c.x as int,
                        c.y as int,
                        target,
                    ) <= best_idealness,
                visited.finite(),
                visited.subset_of(set_int_range(0, (BOARD_SIZE * BOARD_SIZE) as int)),
                forall|c: Coords|
                    grid_in_bounds(c) ==> (node_visited(#[trigger] grid.at(c))
                        <==> visited.contains(grid_index(c))),
                2 * ((BOARD_SIZE * BOARD_SIZE) as int - visited.len()) + queue@.len() - head
                    <= measure0 - 1,
        {
            let n = neighbors[k];
            if bounds.is_in_arena(n) {
                proof {
                    lemma_diamond_in_bounds(n.x as int, n.y as int);
                }
                let node_here: Option<Node> = match grid.get(n) {
                    Some(nd) => Some(*nd),
                    None => None,
                };
                if let Some(Node::Open { visited_idealness, pathlength }) = node_here {
                    // don't enter an infinite loop
                    if !visited_idealness {
                        let ghost gpre = *grid;
                        let _ = grid.set(
                            n,
                            Node::Open { visited_idealness: true, pathlength },
                        );
                        proof {
                            visited = visited.insert(grid_index(n));
                            assert forall|c2: Coords| grid_in_bounds(c2) && c2 != n implies grid.at(
                                c2,
                            ) == gpre.at(c2) by {
                                assert(grid_index(c2) != grid_index(n));
                            }
                            assert(node_open(old(grid).at(n)));
                            lemma_grid_reaches_step(*old(grid), start, curr, n);
                        }
                        // short circuit if we've reached the edge
                        if bounds.is_on_edge(target, n) {
                            return copy_edge_list(bounds, target);
                        }
                        proof {
                            lemma_flood_mark(
                                *old(grid),
                                gpre,
                                *grid,
                                queue@,
                                head - 1,
                                start,
                                target,
                                curr,
                                n,
                            );
                        }
                        // otherwise, possible replacement of the best tile
                        let neighbor_idealness = match idealness_of(bounds, n, target) {
                            Ok(v) => v,
                            Err(_) => vstd::pervasive::unreached(),
                        };
                        if neighbor_idealness > best_idealness {
                            best_idealness = neighbor_idealness;
                            best_tile = n;
                        }
                        // and then, recursion
                        queue.push(n);
                    }
                }
            }
        }
        proof {
            lemma_int_range(0, (BOARD_SIZE * BOARD_SIZE) as int);
            lemma_len_subset(visited, set_int_range(0, (BOARD_SIZE * BOARD_SIZE) as int));
            // the popped cell's whole open in-arena neighborhood is visited
            assert forall|b: Coords|
                grid_in_bounds(b) && spec_adjacent(curr, b) && in_diamond(b.x as int, b.y as int)
                    && node_open(grid.at(b)) implies node_visited(#[trigger] grid.at(b)) by {
                assert(b == neighbors@[0] || b == neighbors@[1] || b == neighbors@[2] || b
                    == neighbors@[3]);
            }
            lemma_flood_finish(*old(grid), *grid, queue@, head - 1, start, target, curr);
        }
    }

    // the pocket does not reach the edge: its best tile is the ideal set
    proof {
        assert forall|c: Coords| #[trigger] spec_grid_reaches(*old(grid), start, c) implies (
        !on_edge(target, c.x as int, c.y as int) && spec_idealness(c.x as int, c.y as int, target)
            <= spec_idealness(best_tile.x as int, best_tile.y as int, target)) by {
            lemma_flood_exhausted(*old(grid), *grid, queue@, start, target, c);
            lemma_diamond_in_bounds(c.x as int, c.y as int);
        }
    }
    let mut out: Vec<Coords> = Vec::new();
    out.push(best_tile);
    proof {
        assert(out@ =~= seq![best_tile]);
    }
    out
}

/// A walk through the node grid: at least one cell, every cell an open
/// arena cell, consecutive cells adjacent.
pub open spec fn spec_open_path(g: Grid<Node>, p: Seq<Coords>) -> bool {
    &&& p.len() >= 1
    &&& (forall|i: int| 0 <= i < p.len() ==> in_diamond((#[trigger] p[i]).x as int, p[i].y as int))
    &&& (forall|i: int| 0 <= i < p.len() ==> node_open(g.at(#[trigger] p[i])))
    &&& (forall|i: int| 0 < i < p.len() ==> spec_adjacent(p[i - 1], #[trigger] p[i]))
}

/// A closed distance field: between adjacent open arena cells the field
/// never leaves a neighbor of an assigned cell unassigned, and grows by at
/// most one per step.
#[verifier::opaque]
pub open spec fn spec_field_closed(g: Grid<Node>) -> bool {
    forall|a: Coords, b: Coords|
        grid_in_bounds(a) && grid_in_bounds(b) && spec_adjacent(a, b) && node_open(g.at(a))
            && node_open(g.at(b)) && node_pl(#[trigger] g.at(a)) is Some ==> node_pl(
            #[trigger] g.at(b),
        ) is Some && node_pl(g.at(b))->Some_0 <= node_pl(g.at(a))->Some_0 + 1
}

/// Along any open walk a closed distance field grows by at most one per
/// step, so a walk from an assigned cell bounds its endpoint's distance:
/// no open path can beat the field.
pub proof fn lemma_closed_field_bounds_distance(g: Grid<Node>, p: Seq<Coords>)
    requires
        spec_field_closed(g),
        spec_open_path(g, p),
        node_pl(g.at(p.first())) is Some,
    ensures
        node_pl(g.at(p.last())) is Some,
        node_pl(g.at(p.last()))->Some_0 <= node_pl(g.at(p.first()))->Some_0 + p.len() - 1,
    decreases p.len(),
{
    reveal(spec_field_closed);
    if p.len() == 1 {
        assert(p.last() == p.first());
    } else {
        let a = p[0];
        let b = p[1];
        lemma_diamond_in_bounds(a.x as int, a.y as int);
        lemma_diamond_in_bounds(b.x as int, b.y as int);
        assert(node_pl(g.at(b)) is Some && node_pl(g.at(b))->Some_0 <= node_pl(g.at(a))->Some_0
            + 1);
        let q = p.drop_first();
        assert(spec_open_path(g, q)) by {
            assert(forall|i: int|
                0 <= i < q.len() ==> in_diamond((#[trigger] q[i]).x as int, q[i].y as int));
            assert(forall|i: int| 0 <= i < q.len() ==> node_open(g.at(#[trigger] q[i])));
            assert(forall|i: int| 0 < i < q.len() ==> spec_adjacent(q[i - 1], #[trigger] q[i]));
        }
        assert(q.first() == b);
        assert(q.last() == p.last());
        lemma_closed_field_bounds_distance(g, q);
    }
}

/// In a gradient field every assigned distance is realized: some walk of
/// exactly that length leads from a zero cell to the assigned cell.
pub proof fn lemma_gradient_realizes_distance(g: Grid<Node>, c: Coords)
    requires
        spec_gradient(g),
        forall|c2: Coords|
            grid_in_bounds(c2) && node_open(#[trigger] g.at(c2)) ==> in_diamond(
                c2.x as int,
                c2.y as int,
            ),
        grid_in_bounds(c),
        node_pl(g.at(c)) is Some,
    ensures
        exists|p: Seq<Coords>|
            #[trigger] spec_open_path(g, p) && p.len() == node_pl(g.at(c))->Some_0 + 1 && p.last()
                == c && node_pl(g.at(p.first())) == Some(0u32),
    decreases node_pl(g.at(c))->Some_0,
{
    reveal(spec_gradient);
    let d = node_pl(g.at(c))->Some_0;
    if d == 0 {
        let p = seq![c];
        assert(spec_open_path(g, p)) by {
            assert(p[0] == c && node_open(g.at(c)));
        }
        assert(p.first() == c && p.last() == c);
    } else {
        let n = choose|n: Coords|
            spec_adjacent(c, n) && in_diamond(n.x as int, n.y as int) && node_pl(
                #[trigger] g.at(n),
            ) == Some((d - 1) as u32);
        lemma_diamond_in_bounds(n.x as int, n.y as int);
        lemma_gradient_realizes_distance(g, n);
        let q = choose|q: Seq<Coords>|
            #[trigger] spec_open_path(g, q) && q.len() == node_pl(g.at(n))->Some_0 + 1 && q.last()
                == n && node_pl(g.at(q.first())) == Some(0u32);
        let p = q.push(c);
        lemma_adjacent_symmetric(c, n);
        assert(spec_open_path(g, p)) by {
            assert(forall|i: int|
                0 <= i < q.len() ==> in_diamond((#[trigger] q[i]).x as int, q[i].y as int));
            assert(p[p.len() - 1] == c && p[p.len() - 2] == n);
            assert(forall|i: int|
                0 <= i < p.len() ==> in_diamond((#[trigger] p[i]).x as int, p[i].y as int));
            assert(forall|i: int| 0 <= i < p.len() ==> node_open(g.at(#[trigger] p[i])));
            assert(forall|i: int| 0 < i < p.len() ==> spec_adjacent(p[i - 1], #[trigger] p[i]));
        }
        assert(p.first() == q.first() && p.last() == c && p.len() == d + 1);
    }
}


/// The pocket relation over the node grid: `c` is reachable from `start`
/// through open arena cells by 4-neighbor steps.
#[verifier::opaque]
pub open spec fn spec_grid_reaches(g: Grid<Node>, start: Coords, c: Coords) -> bool {
    exists|p: Seq<Coords>|
        #[trigger] spec_open_path(g, p) && p.first() == start && p.last() == c
}

/// A board cell a mobile unit can stand on: inside the arena and free of
/// structures.
pub open spec fn spec_board_open(board: MapState, c: Coords) -> bool {
    in_diamond(c.x as int, c.y as int) && board.wall_at(c) is None
}

/// A walk across the board through open arena cells.
pub open spec fn spec_board_path(board: MapState, p: Seq<Coords>) -> bool {
    &&& p.len() >= 1
    &&& (forall|i: int| 0 <= i < p.len() ==> spec_board_open(board, #[trigger] p[i]))
    &&& (forall|i: int| 0 < i < p.len() ==> spec_adjacent(p[i - 1], #[trigger] p[i]))
}

/// The pocket relation over the board itself.
#[verifier::opaque]
pub open spec fn spec_pocket_reaches(board: MapState, start: Coords, c: Coords) -> bool {
    exists|p: Seq<Coords>|
        #[trigger] spec_board_path(board, p) && p.first() == start && p.last() == c
}

/// Whether the pocket around `start` touches the target edge.
pub open spec fn spec_edge_reachable(board: MapState, start: Coords, target: MapEdge) -> bool {
    exists|c: Coords|
        #[trigger] spec_pocket_reaches(board, start, c) && on_edge(target, c.x as int, c.y as int)
}

/// A node grid carrying the board's occupancy: out-of-arena cells are
/// invalid, cells under a structure are walls, all others open.
pub open spec fn spec_node_grid_for(board: MapState, g: Grid<Node>) -> bool {
    &&& g.wf()
    &&& (forall|c: Coords|
        grid_in_bounds(c) ==> same_kind(#[trigger] g.at(c), spec_initial_node(board, c)))
}

/// A cell reaches itself.
proof fn lemma_grid_reaches_self(g: Grid<Node>, c: Coords)
    requires
        in_diamond(c.x as int, c.y as int),
        node_open(g.at(c)),
    ensures
        spec_grid_reaches(g, c, c),
{
    reveal(spec_grid_reaches);
    let p = seq![c];
    assert(spec_open_path(g, p)) by {
        assert(p[0] == c);
    }
    assert(p.first() == c && p.last() == c);
}

/// Reachability extends across one open adjacent cell.
proof fn lemma_grid_reaches_step(g: Grid<Node>, start: Coords, a: Coords, b: Coords)
    requires
        spec_grid_reaches(g, start, a),
        spec_adjacent(a, b),
        in_diamond(b.x as int, b.y as int),
        node_open(g.at(b)),
    ensures
        spec_grid_reaches(g, start, b),
{
    reveal(spec_grid_reaches);
    let p = choose|p: Seq<Coords>|
        #[trigger] spec_open_path(g, p) && p.first() == start && p.last() == a;
    let q = p.push(b);
    assert(spec_open_path(g, q)) by {
        assert(q[q.len() - 1] == b && q[q.len() - 2] == a);
        assert(forall|i: int|
            0 <= i < q.len() ==> in_diamond((#[trigger] q[i]).x as int, q[i].y as int));
        assert(forall|i: int| 0 <= i < q.len() ==> node_open(g.at(#[trigger] q[i])));
        assert(forall|i: int| 0 < i < q.len() ==> spec_adjacent(q[i - 1], #[trigger] q[i]));
    }
    assert(q.first() == start && q.last() == b);
}

/// Walks only read node kinds, so they transfer between grids of the same
/// kinds, and between a grid and the board it was built from.
proof fn lemma_path_kind_transfer(g1: Grid<Node>, g2: Grid<Node>, p: Seq<Coords>)
    requires
        forall|c: Coords| grid_in_bounds(c) ==> same_kind(#[trigger] g1.at(c), g2.at(c)),
        spec_open_path(g1, p),
    ensures
        spec_open_path(g2, p),
{
    assert forall|i: int| 0 <= i < p.len() implies node_open(g2.at(#[trigger] p[i])) by {
        lemma_diamond_in_bounds(p[i].x as int, p[i].y as int);
        assert(same_kind(g1.at(p[i]), g2.at(p[i])));
    }
}

/// Reachability transfers between grids of the same kinds.
proof fn lemma_reaches_kind_transfer(g1: Grid<Node>, g2: Grid<Node>, start: Coords, c: Coords)
    requires
        forall|c2: Coords| grid_in_bounds(c2) ==> same_kind(#[trigger] g1.at(c2), g2.at(c2)),
        spec_grid_reaches(g1, start, c),
    ensures
        spec_grid_reaches(g2, start, c),
{
    reveal(spec_grid_reaches);
    let p = choose|p: Seq<Coords>|
        #[trigger] spec_open_path(g1, p) && p.first() == start && p.last() == c;
    lemma_path_kind_transfer(g1, g2, p);
}

/// Over a grid carrying the board's occupancy, grid walks and board walks
/// are the same walks.
proof fn lemma_board_grid_path(board: MapState, g: Grid<Node>, p: Seq<Coords>)
    requires
        spec_node_grid_for(board, g),
    ensures
        spec_board_path(board, p) <==> spec_open_path(g, p),
{
    if spec_board_path(board, p) {
        assert forall|i: int| 0 <= i < p.len() implies node_open(g.at(#[trigger] p[i])) by {
            lemma_diamond_in_bounds(p[i].x as int, p[i].y as int);
            assert(same_kind(g.at(p[i]), spec_initial_node(board, p[i])));
        }
    }
    if spec_open_path(g, p) {
        assert forall|i: int| 0 <= i < p.len() implies spec_board_open(board, #[trigger] p[i]) by {
            lemma_diamond_in_bounds(p[i].x as int, p[i].y as int);
            assert(same_kind(g.at(p[i]), spec_initial_node(board, p[i])));
        }
    }
}

/// Pocket reachability over the board and over its node grid coincide.
proof fn lemma_board_grid_reaches(board: MapState, g: Grid<Node>, start: Coords, c: Coords)
    requires
        spec_node_grid_for(board, g),
    ensures
        spec_pocket_reaches(board, start, c) <==> spec_grid_reaches(g, start, c),
{
    reveal(spec_pocket_reaches);
    reveal(spec_grid_reaches);
    if spec_pocket_reaches(board, start, c) {
        let p = choose|p: Seq<Coords>|
            #[trigger] spec_board_path(board, p) && p.first() == start && p.last() == c;
        lemma_board_grid_path(board, g, p);
        assert(spec_open_path(g, p) && p.first() == start && p.last() == c);
    }
    if spec_grid_reaches(g, start, c) {
        let p = choose|p: Seq<Coords>|
            #[trigger] spec_open_path(g, p) && p.first() == start && p.last() == c;
        lemma_board_grid_path(board, g, p);
        assert(spec_board_path(board, p) && p.first() == start && p.last() == c);
    }
}

/// An open walk runs equally well backwards.
proof fn lemma_reverse_path(g: Grid<Node>, p: Seq<Coords>)
    requires
        spec_open_path(g, p),
    ensures
        spec_open_path(g, p.reverse()),
        p.reverse().first() == p.last(),
        p.reverse().last() == p.first(),
{
    let q = p.reverse();
    assert(q.len() == p.len());
    assert forall|i: int| 0 <= i < q.len() implies in_diamond(
        (#[trigger] q[i]).x as int,
        q[i].y as int,
    ) && node_open(g.at(q[i])) by {
        assert(q[i] == p[p.len() - 1 - i]);
    }
    assert forall|i: int| 0 < i < q.len() implies spec_adjacent(q[i - 1], #[trigger] q[i]) by {
        let j = p.len() - 1 - i;
        assert(q[i] == p[j] && q[i - 1] == p[j + 1]);
        assert(spec_adjacent(p[j], p[j + 1]));
        lemma_diamond_in_bounds(p[j].x as int, p[j].y as int);
        lemma_diamond_in_bounds(p[j + 1].x as int, p[j + 1].y as int);
        lemma_adjacent_symmetric(p[j], p[j + 1]);
    }
}

/// A breadth-first distance field: every cell with a positive distance
/// has an adjacent open arena cell exactly one step closer.
#[verifier::opaque]
pub open spec fn spec_gradient(g: Grid<Node>) -> bool {
    forall|c: Coords|
        grid_in_bounds(c) && node_pl(#[trigger] g.at(c)) is Some && node_pl(g.at(c))->Some_0 > 0
            ==> exists|n: Coords|
            spec_adjacent(c, n) && in_diamond(n.x as int, n.y as int) && node_pl(
                #[trigger] g.at(n),
            ) == Some((node_pl(g.at(c))->Some_0 - 1) as u32)
}


/// The working state of the distance flood: the queue holds exactly the
/// assigned cells, in nondecreasing distance order with a spread of at
/// most one, and every cell before `head` has its whole open neighborhood
/// assigned within one step.
#[verifier::opaque]
spec fn spec_bfs_queue_inv(g: Grid<Node>, q: Seq<Coords>, head: int) -> bool {
    &&& (forall|j: int|
        0 <= j < q.len() ==> grid_in_bounds(#[trigger] q[j]) && node_open(g.at(q[j])) && node_pl(
            g.at(q[j]),
        ) is Some)
    &&& (forall|c: Coords|
        grid_in_bounds(c) && node_pl(#[trigger] g.at(c)) is Some ==> exists|j: int|
            0 <= j < q.len() && q[j] == c)
    &&& (forall|j: int, k: int|
        0 <= j < k < q.len() ==> node_pl(g.at(#[trigger] q[j]))->Some_0 <= node_pl(
            g.at(#[trigger] q[k]),
        )->Some_0)
    &&& (head < q.len() ==> (forall|j: int|
        0 <= j < q.len() ==> node_pl(g.at(#[trigger] q[j]))->Some_0 <= node_pl(
            g.at(q[head]),
        )->Some_0 + 1))
    &&& (forall|j: int, b: Coords|
        0 <= j < head && grid_in_bounds(b) && spec_adjacent(#[trigger] q[j], b) && node_open(
            g.at(b),
        ) ==> node_pl(#[trigger] g.at(b)) is Some && node_pl(g.at(b))->Some_0 <= node_pl(
            g.at(q[j]),
        )->Some_0 + 1)
}

/// Popping the next queue cell of the flood.
proof fn lemma_bfs_pop(g: Grid<Node>, q: Seq<Coords>, head: int)
    requires
        spec_bfs_queue_inv(g, q, head),
        0 <= head < q.len(),
    ensures
        grid_in_bounds(q[head]),
        node_open(g.at(q[head])),
        node_pl(g.at(q[head])) is Some,
        forall|j: int|
            0 <= j < q.len() ==> node_pl(g.at(#[trigger] q[j]))->Some_0 <= node_pl(
                g.at(q[head]),
            )->Some_0 + 1,
{
    reveal(spec_bfs_queue_inv);
}

/// Assigning one fresh neighbor during the flood keeps the queue state.
proof fn lemma_bfs_assign(
    gpre: Grid<Node>,
    gpost: Grid<Node>,
    q: Seq<Coords>,
    head: int,
    curr: Coords,
    curr_pl: u32,
    n: Coords,
)
    requires
        spec_bfs_queue_inv(gpre, q, head),
        1 <= head + 1 <= q.len(),
        q[head] == curr,
        node_pl(gpre.at(curr)) == Some(curr_pl),
        curr_pl < u32::MAX,
        grid_in_bounds(n),
        node_open(gpre.at(n)),
        node_pl(gpre.at(n)) is None,
        node_open(gpost.at(n)),
        node_pl(gpost.at(n)) == Some((curr_pl + 1) as u32),
        forall|c2: Coords| grid_in_bounds(c2) && c2 != n ==> gpost.at(c2) == gpre.at(c2),
    ensures
        spec_bfs_queue_inv(gpost, q.push(n), head),
{
    reveal(spec_bfs_queue_inv);
    let qn = q.push(n);
    assert forall|j: int| 0 <= j < q.len() implies q[j] != n && gpost.at(#[trigger] q[j])
        == gpre.at(q[j]) by {
        assert(node_pl(gpre.at(q[j])) is Some);
    }
    assert forall|c: Coords|
        grid_in_bounds(c) && node_pl(#[trigger] gpost.at(c)) is Some implies exists|j: int|
        0 <= j < qn.len() && qn[j] == c by {
        if c == n {
            assert(qn[qn.len() - 1] == n);
        } else {
            assert(node_pl(gpre.at(c)) is Some);
            let j = choose|j: int| 0 <= j < q.len() && q[j] == c;
            assert(qn[j] == c);
        }
    }
    assert forall|j: int, k: int|
        0 <= j < k < qn.len() implies node_pl(gpost.at(#[trigger] qn[j]))->Some_0 <= node_pl(
        gpost.at(#[trigger] qn[k]),
    )->Some_0 by {
        assert(qn[j] == q[j]);
        assert(gpost.at(q[j]) == gpre.at(q[j]));
        if k == qn.len() - 1 {
            assert(qn[k] == n);
            assert(node_pl(gpre.at(q[j]))->Some_0 <= node_pl(gpre.at(q[head]))->Some_0 + 1);
            assert(node_pl(gpre.at(q[j]))->Some_0 <= curr_pl + 1);
            assert(node_pl(gpost.at(n))->Some_0 == curr_pl + 1);
        } else {
            assert(qn[k] == q[k]);
            assert(gpost.at(q[k]) == gpre.at(q[k]));
            assert(node_pl(gpre.at(q[j]))->Some_0 <= node_pl(gpre.at(q[k]))->Some_0);
        }
    }
    assert forall|j: int, b: Coords|
        0 <= j < head && grid_in_bounds(b) && spec_adjacent(#[trigger] qn[j], b) && node_open(
            gpost.at(b),
        ) implies node_pl(#[trigger] gpost.at(b)) is Some && node_pl(gpost.at(b))->Some_0
        <= node_pl(gpost.at(qn[j]))->Some_0 + 1 by {
        assert(qn[j] == q[j]);
        if b == n {
            assert(node_pl(gpre.at(n)) is Some);
        } else {
            assert(gpost.at(b) == gpre.at(b));
        }
    }
}

/// Once every open neighbor of the popped cell is assigned within one
/// step, the cell counts as processed.
proof fn lemma_bfs_finish_cell(g: Grid<Node>, q: Seq<Coords>, head: int, curr: Coords)
    requires
        spec_bfs_queue_inv(g, q, head),
        0 <= head < q.len(),
        q[head] == curr,
        forall|b: Coords|
            grid_in_bounds(b) && spec_adjacent(curr, b) && node_open(g.at(b)) ==> node_pl(
                #[trigger] g.at(b),
            ) is Some && node_pl(g.at(b))->Some_0 <= node_pl(g.at(curr))->Some_0 + 1,
    ensures
        spec_bfs_queue_inv(g, q, head + 1),
{
    reveal(spec_bfs_queue_inv);
    assert forall|j: int, b: Coords|
        0 <= j < head + 1 && grid_in_bounds(b) && spec_adjacent(#[trigger] q[j], b) && node_open(
            g.at(b),
        ) implies node_pl(#[trigger] g.at(b)) is Some && node_pl(g.at(b))->Some_0 <= node_pl(
        g.at(q[j]),
    )->Some_0 + 1 by {
        if j == head {
            assert(q[j] == curr);
        }
    }
    if head + 1 < q.len() {
        assert forall|j: int| 0 <= j < q.len() implies node_pl(g.at(#[trigger] q[j]))->Some_0
            <= node_pl(g.at(q[head + 1]))->Some_0 + 1 by {
            assert(node_pl(g.at(q[head]))->Some_0 <= node_pl(g.at(q[head + 1]))->Some_0);
        }
    }
}

/// An already assigned neighbor of the popped cell lies within one step
/// of it: it sits in the queue, whose spread around the popped cell is at
/// most one.
proof fn lemma_bfs_assigned_neighbor_bound(
    g: Grid<Node>,
    q: Seq<Coords>,
    head: int,
    curr: Coords,
    curr_pl: u32,
    n: Coords,
)
    requires
        spec_bfs_queue_inv(g, q, head),
        0 <= head < q.len(),
        q[head] == curr,
        node_pl(g.at(curr)) == Some(curr_pl),
        grid_in_bounds(n),
        node_pl(g.at(n)) is Some,
    ensures
        node_pl(g.at(n))->Some_0 <= curr_pl + 1,
{
    reveal(spec_bfs_queue_inv);
    let j = choose|j: int| 0 <= j < q.len() && q[j] == n;
    assert(node_pl(g.at(q[j]))->Some_0 <= node_pl(g.at(q[head]))->Some_0 + 1);
}

/// Assigning one fresh cell adjacent to an assigned one keeps the field a
/// gradient: the new cell's predecessor is one step closer, and every
/// other cell keeps its witness.
proof fn lemma_bfs_gradient_step(
    gpre: Grid<Node>,
    gpost: Grid<Node>,
    curr: Coords,
    curr_pl: u32,
    n: Coords,
)
    requires
        spec_gradient(gpre),
        grid_in_bounds(curr),
        in_diamond(curr.x as int, curr.y as int),
        grid_in_bounds(n),
        spec_adjacent(curr, n),
        node_open(gpre.at(curr)),
        node_pl(gpre.at(curr)) == Some(curr_pl),
        curr_pl < u32::MAX,
        node_pl(gpre.at(n)) is None,
        node_open(gpost.at(n)),
        node_pl(gpost.at(n)) == Some((curr_pl + 1) as u32),
        forall|c2: Coords| grid_in_bounds(c2) && c2 != n ==> gpost.at(c2) == gpre.at(c2),
    ensures
        spec_gradient(gpost),
{
    reveal(spec_gradient);
    lemma_adjacent_symmetric(curr, n);
    assert forall|c2: Coords|
        grid_in_bounds(c2) && node_pl(#[trigger] gpost.at(c2)) is Some && node_pl(
            gpost.at(c2),
        )->Some_0 > 0 implies exists|m: Coords|
        spec_adjacent(c2, m) && in_diamond(m.x as int, m.y as int) && node_pl(
            #[trigger] gpost.at(m),
        ) == Some((node_pl(gpost.at(c2))->Some_0 - 1) as u32) by {
        if c2 == n {
            assert(node_pl(gpost.at(curr)) == Some(curr_pl));
            assert(spec_adjacent(n, curr) && in_diamond(curr.x as int, curr.y as int) && node_pl(
                gpost.at(curr),
            ) == Some((node_pl(gpost.at(n))->Some_0 - 1) as u32));
        } else {
            assert(gpost.at(c2) == gpre.at(c2));
            assert(node_pl(gpre.at(c2)) is Some && node_pl(gpre.at(c2))->Some_0 > 0);
            assert(exists|m: Coords|
                spec_adjacent(c2, m) && in_diamond(m.x as int, m.y as int) && node_pl(
                    #[trigger] gpre.at(m),
                ) == Some((node_pl(gpre.at(c2))->Some_0 - 1) as u32));
            let m = choose|m: Coords|
                spec_adjacent(c2, m) && in_diamond(m.x as int, m.y as int) && node_pl(
                    #[trigger] gpre.at(m),
                ) == Some((node_pl(gpre.at(c2))->Some_0 - 1) as u32);
            lemma_diamond_in_bounds(m.x as int, m.y as int);
            assert(grid_in_bounds(m));
            assert(m != n);
            assert(gpost.at(m) == gpre.at(m));
            assert(spec_adjacent(c2, m) && in_diamond(m.x as int, m.y as int) && node_pl(
                gpost.at(m),
            ) == Some((node_pl(gpost.at(c2))->Some_0 - 1) as u32));
        }
    }
}

/// A fully drained flood leaves a closed distance field.
proof fn lemma_bfs_drained_field_closed(g: Grid<Node>, q: Seq<Coords>)
    requires
        spec_bfs_queue_inv(g, q, q.len() as int),
    ensures
        spec_field_closed(g),
{
    reveal(spec_bfs_queue_inv);
    reveal(spec_field_closed);
    assert forall|a: Coords, b: Coords|
        grid_in_bounds(a) && grid_in_bounds(b) && spec_adjacent(a, b) && node_open(g.at(a))
            && node_open(g.at(b)) && node_pl(#[trigger] g.at(a)) is Some implies node_pl(
        #[trigger] g.at(b),
    ) is Some && node_pl(g.at(b))->Some_0 <= node_pl(g.at(a))->Some_0 + 1 by {
        let j = choose|j: int| 0 <= j < q.len() && q[j] == a;
    }
}

/// Phase two: seed every open ideal tile with pathlength zero, then flood
/// outward, assigning each newly reached open cell one more than its
/// predecessor; the first assignment wins, so distances are breadth-first
/// shortest. Kinds and visited flags never change.
#[verifier::rlimit(100)]
#[verifier::spinoff_prover]
fn validate(grid: &mut Grid<Node>, ideal_tiles: &Vec<Coords>)
    requires
        old(grid).wf(),
        forall|i: int| #![auto]
            0 <= i < ideal_tiles@.len() ==> in_diamond(
                ideal_tiles@[i].x as int,
                ideal_tiles@[i].y as int,
            ),
        forall|i: int| #![auto] 0 <= i < ideal_tiles@.len() ==> grid_in_bounds(ideal_tiles@[i]),
        forall|c: Coords| grid_in_bounds(c) ==> node_pl(old(grid).at(c)) is None,
        forall|c: Coords|
            grid_in_bounds(c) && node_open(#[trigger] old(grid).at(c)) ==> in_diamond(
                c.x as int,
                c.y as int,
            ),
    ensures
        final(grid).wf(),
        forall|c: Coords|
            grid_in_bounds(c) ==> same_kind_and_visited(old(grid).at(c), final(grid).at(c)),
        forall|i: int|
            0 <= i < ideal_tiles@.len() && node_open(old(grid).at(#[trigger] ideal_tiles@[i]))
                ==> node_pl(final(grid).at(ideal_tiles@[i])) == Some(0u32),
        spec_gradient(*final(grid)),
        spec_field_closed(*final(grid)),
        forall|c: Coords|
            grid_in_bounds(c) && node_pl(#[trigger] final(grid).at(c)) == Some(0u32)
                ==> exists|i: int| 0 <= i < ideal_tiles@.len() && ideal_tiles@[i] == c,
        forall|c: Coords|
            grid_in_bounds(c) && node_pl(#[trigger] final(grid).at(c)) is Some ==> exists|
                p: Seq<Coords>,
            |
                #[trigger] spec_open_path(*final(grid), p) && p.len() == node_pl(
                    final(grid).at(c),
                )->Some_0 + 1 && p.last() == c && node_pl(final(grid).at(p.first())) == Some(
                    0u32,
                ),
{
    let mut queue: Vec<Coords> = Vec::new();
    let ghost mut assigned: Set<int> = Set::empty();
    proof {
        lemma_int_range(0, (BOARD_SIZE * BOARD_SIZE) as int);
        reveal(spec_bfs_queue_inv);
        assert(spec_bfs_queue_inv(*grid, queue@, 0));
    }

    // seed the ideal tiles
    let n_tiles = ideal_tiles.len();
    for i in 0..n_tiles
        invariant
            grid.wf(),
            n_tiles == ideal_tiles@.len(),
            forall|i2: int| #![auto]
                0 <= i2 < ideal_tiles@.len() ==> in_diamond(
                    ideal_tiles@[i2].x as int,
                    ideal_tiles@[i2].y as int,
                ),
            forall|i2: int| #![auto]
                0 <= i2 < ideal_tiles@.len() ==> grid_in_bounds(ideal_tiles@[i2]),
            forall|c: Coords|
                grid_in_bounds(c) ==> same_kind_and_visited(old(grid).at(c), grid.at(c)),
            forall|i2: int|
                0 <= i2 < i && node_open(old(grid).at(#[trigger] ideal_tiles@[i2])) ==> node_pl(
                    grid.at(ideal_tiles@[i2]),
                ) == Some(0u32),
            forall|c: Coords|
                grid_in_bounds(c) ==> (node_pl(#[trigger] grid.at(c)) is Some
                    <==> assigned.contains(grid_index(c))),
            forall|c: Coords|
                grid_in_bounds(c) && node_pl(#[trigger] grid.at(c)) is Some ==> node_pl(
                    grid.at(c),
                ) == Some(0u32),
            spec_bfs_queue_inv(*grid, queue@, 0),
            forall|c: Coords|
                grid_in_bounds(c) && node_pl(#[trigger] grid.at(c)) is Some ==> exists|j: int|
                    0 <= j < queue@.len() && queue@[j] == c,
            forall|c: Coords|
                grid_in_bounds(c) && node_pl(#[trigger] grid.at(c)) == Some(0u32) ==> exists|
                    i2: int,
                | 0 <= i2 < ideal_tiles@.len() && ideal_tiles@[i2] == c,
            assigned.finite(),
            assigned.subset_of(set_int_range(0, (BOARD_SIZE * BOARD_SIZE) as int)),
    {
        let c = ideal_tiles[i];
        proof {
            lemma_diamond_in_bounds(c.x as int, c.y as int);
        }
        let node_here: Option<Node> = match grid.get(c) {
            Some(nd) => Some(*nd),
            None => None,
        };
        match node_here {
            Some(Node::Open { visited_idealness, pathlength }) => {
                let ghost gpre = *grid;
                let _ = grid.set(
                    c,
                    Node::Open { visited_idealness, pathlength: Some(0) },
                );
                proof {
                    assigned = assigned.insert(grid_index(c));
                }
                let ghost qpre = queue@;
                queue.push(c);
                proof {
                    assert(queue@ == qpre.push(c));
                    assert forall|c2: Coords|
                        grid_in_bounds(c2) && node_pl(#[trigger] grid.at(c2)) is Some implies exists|
                        j: int,
                    | 0 <= j < queue@.len() && queue@[j] == c2 by {
                        if c2 == c {
                            assert(queue@[queue@.len() - 1] == c);
                        } else {
                            assert(grid_index(c2) != grid_index(c));
                            assert(node_pl(gpre.at(c2)) is Some);
                            let j = choose|j: int| 0 <= j < qpre.len() && qpre[j] == c2;
                            assert(queue@[j] == c2);
                        }
                    }
                    // every assigned distance is still zero, so order and
                    // spread are immediate
                    reveal(spec_bfs_queue_inv);
                    assert forall|j: int| 0 <= j < queue@.len() implies grid_in_bounds(
                        #[trigger] queue@[j],
                    ) && node_open(grid.at(queue@[j])) && node_pl(grid.at(queue@[j]))
                        == Some(0u32) by {
                        if j < qpre.len() {
                            assert(queue@[j] == qpre[j]);
                        }
                    }
                    assert(spec_bfs_queue_inv(*grid, queue@, 0));
                }
            },
            _ => (),
        }
    }

    proof {
        reveal(spec_gradient);
        assert(spec_gradient(*grid));
    }

    // BFS the pocket
    let mut head: usize = 0;
    while head < queue.len()
        invariant
            grid.wf(),
            head <= queue.len(),
            spec_gradient(*grid),
            spec_bfs_queue_inv(*grid, queue@, head as int),
            forall|c: Coords|
                grid_in_bounds(c) && node_pl(#[trigger] grid.at(c)) == Some(0u32) ==> exists|
                    i2: int,
                | 0 <= i2 < ideal_tiles@.len() && ideal_tiles@[i2] == c,
            forall|c: Coords|
                grid_in_bounds(c) && node_open(#[trigger] old(grid).at(c)) ==> in_diamond(
                    c.x as int,
                    c.y as int,
                ),
            forall|c: Coords|
                grid_in_bounds(c) ==> same_kind_and_visited(old(grid).at(c), grid.at(c)),
            forall|i2: int| #![auto]
                0 <= i2 < ideal_tiles@.len() ==> grid_in_bounds(ideal_tiles@[i2]),
            forall|i2: int|
                0 <= i2 < ideal_tiles@.len() && node_open(
                    old(grid).at(#[trigger] ideal_tiles@[i2]),
                ) ==> node_pl(grid.at(ideal_tiles@[i2])) == Some(0u32),
            forall|c: Coords|
                grid_in_bounds(c) ==> (node_pl(#[trigger] grid.at(c)) is Some
                    <==> assigned.contains(grid_index(c))),
            forall|c: Coords|
                grid_in_bounds(c) && node_pl(#[trigger] grid.at(c)) is Some ==> node_pl(
                    grid.at(c),
                )->Some_0 <= assigned.len(),
            assigned.finite(),
            assigned.subset_of(set_int_range(0, (BOARD_SIZE * BOARD_SIZE) as int)),
        decreases 2 * ((BOARD_SIZE * BOARD_SIZE) as int - assigned.len()) + queue@.len() - head,
    {
        proof {
            lemma_int_range(0, (BOARD_SIZE * BOARD_SIZE) as int);
            lemma_len_subset(assigned, set_int_range(0, (BOARD_SIZE * BOARD_SIZE) as int));
        }
        let ghost measure0: int = 2 * ((BOARD_SIZE * BOARD_SIZE) as int - assigned.len())
            + queue@.len() - head;
        proof {
            lemma_bfs_pop(*grid, queue@, head as int);
        }
        let curr = queue[head];
        head = head + 1;
        let curr_pathlength: u32 = match grid.get(curr) {
            Some(Node::Open { pathlength: Some(pl), .. }) => *pl,
            _ => vstd::pervasive::unreached(),
        };
        proof {
            lemma_int_range(0, (BOARD_SIZE * BOARD_SIZE) as int);
            lemma_len_subset(assigned, set_int_range(0, (BOARD_SIZE * BOARD_SIZE) as int));
            assert(curr_pathlength <= assigned.len());
        }
        let neighbors = curr.neighbors();
        for k in 0..4usize
            invariant
                grid.wf(),
                1 <= head <= queue.len(),
                curr == queue@[head - 1],
                curr_pathlength < (BOARD_SIZE * BOARD_SIZE) as u32 + 1,
                spec_gradient(*grid),
                spec_bfs_queue_inv(*grid, queue@, head - 1),
                grid_in_bounds(curr),
                node_open(grid.at(curr)),
                node_pl(grid.at(curr)) == Some(curr_pathlength),
                neighbors@ == seq![up(curr), down(curr), left(curr), right(curr)],
                forall|k2: int|
                    0 <= k2 < k && grid_in_bounds(#[trigger] neighbors@[k2]) && node_open(
                        grid.at(neighbors@[k2]),
                    ) ==> node_pl(grid.at(neighbors@[k2])) is Some && node_pl(
                        grid.at(neighbors@[k2]),
                    )->Some_0 <= curr_pathlength + 1,
                forall|c: Coords|
                    grid_in_bounds(c) && node_pl(#[trigger] grid.at(c)) == Some(0u32) ==> exists|
                        i2: int,
                    | 0 <= i2 < ideal_tiles@.len() && ideal_tiles@[i2] == c,
                forall|c: Coords|
                    grid_in_bounds(c) && node_open(#[trigger] old(grid).at(c)) ==> in_diamond(
                        c.x as int,
                        c.y as int,
                    ),
                forall|c: Coords|
                    grid_in_bounds(c) ==> same_kind_and_visited(old(grid).at(c), grid.at(c)),
                forall|i2: int| #![auto]
                    0 <= i2 < ideal_tiles@.len() ==> grid_in_bounds(ideal_tiles@[i2]),
                forall|i2: int|
                    0 <= i2 < ideal_tiles@.len() && node_open(
                        old(grid).at(#[trigger] ideal_tiles@[i2]),
                    ) ==> node_pl(grid.at(ideal_tiles@[i2])) == Some(0u32),
                forall|c: Coords|
                    grid_in_bounds(c) ==> (node_pl(#[trigger] grid.at(c)) is Some
                        <==> assigned.contains(grid_index(c))),
                forall|c: Coords|
                    grid_in_bounds(c) && node_pl(#[trigger] grid.at(c)) is Some ==> node_pl(
                        grid.at(c),
                    )->Some_0 <= assigned.len(),
                assigned.finite(),
                assigned.subset_of(set_int_range(0, (BOARD_SIZE * BOARD_SIZE) as int)),
                curr_pathlength as int + 1 <= assigned.len() + 1,
                2 * ((BOARD_SIZE * BOARD_SIZE) as int - assigned.len()) + queue@.len() - head
                    <= measure0 - 1,
        {
            let n = neighbors[k];
            let node_here: Option<Node> = match grid.get(n) {
                Some(nd) => Some(*nd),
                None => None,
            };
            if let Some(Node::Open { visited_idealness, pathlength }) = node_here {
                proof {
                    if pathlength is Some {
                        lemma_bfs_assigned_neighbor_bound(
                            *grid,
                            queue@,
                            head - 1,
                            curr,
                            curr_pathlength,
                            n,
                        );
                    }
                }
                // don't enter an infinite loop
                if pathlength.is_none() {
                    proof {
                        lemma_int_range(0, (BOARD_SIZE * BOARD_SIZE) as int);
                        lemma_len_subset(
                            assigned,
                            set_int_range(0, (BOARD_SIZE * BOARD_SIZE) as int),
                        );
                    }
                    // mark pathlength and recurse
                    let ghost pre = *grid;
                    let _ = grid.set(
                        n,
                        Node::Open {
                            visited_idealness,
                            pathlength: Some(curr_pathlength + 1),
                        },
                    );
                    proof {
                        assigned = assigned.insert(grid_index(n));
                        assert forall|c2: Coords| grid_in_bounds(c2) && c2 != n implies grid.at(
                            c2,
                        ) == pre.at(c2) by {
                            assert(grid_index(c2) != grid_index(n));
                        }
                        assert(in_diamond(curr.x as int, curr.y as int));
                        assert(spec_adjacent(curr, n));
                        lemma_bfs_gradient_step(pre, *grid, curr, curr_pathlength, n);
                    }
                    let ghost qpre = queue@;
                    queue.push(n);
                    proof {
                        assert(queue@ == qpre.push(n));
                        lemma_bfs_assign(
                            pre,
                            *grid,
                            qpre,
                            head - 1,
                            curr,
                            curr_pathlength,
                            n,
                        );
                    }
                }
            }
        }
        proof {
            lemma_int_range(0, (BOARD_SIZE * BOARD_SIZE) as int);
            lemma_len_subset(assigned, set_int_range(0, (BOARD_SIZE * BOARD_SIZE) as int));
            // the popped cell's whole open neighborhood is now assigned
            assert forall|b: Coords|
                grid_in_bounds(b) && spec_adjacent(curr, b) && node_open(grid.at(b)) implies node_pl(
                #[trigger] grid.at(b),
            ) is Some && node_pl(grid.at(b))->Some_0 <= node_pl(grid.at(curr))->Some_0 + 1 by {
                assert(b == neighbors@[0] || b == neighbors@[1] || b == neighbors@[2] || b
                    == neighbors@[3]);
            }
            lemma_bfs_finish_cell(*grid, queue@, head - 1, curr);
        }
    }

    proof {
        lemma_bfs_drained_field_closed(*grid, queue@);
        assert forall|c2: Coords|
            grid_in_bounds(c2) && node_open(#[trigger] grid.at(c2)) implies in_diamond(
            c2.x as int,
            c2.y as int,
        ) by {
            assert(same_kind_and_visited(old(grid).at(c2), grid.at(c2)));
        }
        assert forall|c2: Coords|
            grid_in_bounds(c2) && node_pl(#[trigger] grid.at(c2)) is Some implies exists|
            p: Seq<Coords>,
        |
            #[trigger] spec_open_path(*grid, p) && p.len() == node_pl(grid.at(c2))->Some_0 + 1
                && p.last() == c2 && node_pl(grid.at(p.first())) == Some(0u32) by {
            lemma_gradient_realizes_distance(*grid, c2);
        }
    }
}

/// In a gradient field a cell with a positive distance always offers a
/// candidate move exactly one step closer.
proof fn lemma_gradient_has_candidate(g: Grid<Node>, curr: Coords, curr_pl: u32)
    requires
        spec_gradient(g),
        grid_in_bounds(curr),
        node_pl(g.at(curr)) == Some(curr_pl),
        curr_pl > 0,
    ensures
        exists|m: Coords|
            #[trigger] spec_candidate(g, curr, m) && spec_candidate_pl(g, m) == (curr_pl
                - 1) as u32,
{
    reveal(spec_gradient);
    let m = choose|m: Coords|
        spec_adjacent(curr, m) && in_diamond(m.x as int, m.y as int) && node_pl(
            #[trigger] g.at(m),
        ) == Some((node_pl(g.at(curr))->Some_0 - 1) as u32);
    assert(spec_candidate(g, curr, m) && spec_candidate_pl(g, m) == (curr_pl - 1) as u32);
}

/// A chosen move is a candidate move.
proof fn lemma_chosen_move_is_candidate(
    g: Grid<Node>,
    curr: Coords,
    last: Option<LastDirection>,
    target: MapEdge,
    n: Coords,
)
    requires
        spec_chosen_move(g, curr, last, target, n),
    ensures
        spec_candidate(g, curr, n),
{
    reveal(spec_chosen_move);
}

/// A chosen move is a candidate of minimal distance.
proof fn lemma_chosen_move_min(
    g: Grid<Node>,
    curr: Coords,
    last: Option<LastDirection>,
    target: MapEdge,
    n: Coords,
    m: Coords,
)
    requires
        spec_chosen_move(g, curr, last, target, n),
        spec_candidate(g, curr, m),
    ensures
        spec_candidate(g, curr, n),
        spec_candidate_pl(g, n) <= spec_candidate_pl(g, m),
{
    reveal(spec_chosen_move);
}

/// In a closed field the step back from a chosen neighbor loses at most
/// one: the current cell is at most one above the neighbor.
proof fn lemma_closed_field_step(g: Grid<Node>, curr: Coords, next: Coords)
    requires
        spec_field_closed(g),
        grid_in_bounds(curr),
        grid_in_bounds(next),
        spec_adjacent(curr, next),
        node_open(g.at(curr)),
        node_open(g.at(next)),
        node_pl(g.at(next)) is Some,
        node_pl(g.at(curr)) is Some,
    ensures
        node_pl(g.at(curr))->Some_0 <= node_pl(g.at(next))->Some_0 + 1,
{
    reveal(spec_field_closed);
    lemma_adjacent_symmetric(curr, next);
}

/// Over a breadth-first distance field the engine's chosen move always
/// descends by exactly one: each step of the reconstructed walk lands one
/// closer to the destination set, so a walk from distance `k` has `k`
/// further cells.
pub proof fn lemma_chosen_step_descends_by_one(
    g: Grid<Node>,
    curr: Coords,
    last: Option<LastDirection>,
    target: MapEdge,
    n: Coords,
)
    requires
        spec_gradient(g),
        spec_field_closed(g),
        grid_in_bounds(curr),
        node_open(g.at(curr)),
        node_pl(g.at(curr)) is Some,
        node_pl(g.at(curr))->Some_0 > 0,
        spec_chosen_move(g, curr, last, target, n),
    ensures
        node_pl(g.at(n)) == Some((node_pl(g.at(curr))->Some_0 - 1) as u32),
{
    let curr_pl = node_pl(g.at(curr))->Some_0 as u32;
    lemma_gradient_has_candidate(g, curr, curr_pl);
    let m = choose|m: Coords|
        #[trigger] spec_candidate(g, curr, m) && spec_candidate_pl(g, m) == (curr_pl - 1) as u32;
    lemma_chosen_move_min(g, curr, last, target, n, m);
    lemma_diamond_in_bounds(n.x as int, n.y as int);
    lemma_closed_field_step(g, curr, n);
}

/// Phase three: walk the distance field from the start cell, always
/// moving to the neighbor the engine's rules select, until a cell with
/// pathlength zero is reached.
#[verifier::rlimit(100)]
#[verifier::spinoff_prover]
pub fn get_path(start: Coords, target: MapEdge, grid: &Grid<Node>, bounds: &MapBounds) -> (path:
    Vec<Coords>)
    requires
        grid.wf(),
        in_diamond(start.x as int, start.y as int),
    ensures
        path@.len() >= 1,
        path@[0] == start,
        forall|i: int|
            0 <= i < path@.len() ==> in_diamond(
                (#[trigger] path@[i]).x as int,
                path@[i].y as int,
            ),
        forall|i: int| 0 < i < path@.len() ==> spec_adjacent(path@[i - 1], #[trigger] path@[i]),
        forall|i: int| 0 < i < path@.len() ==> node_open(grid.at(#[trigger] path@[i])),
        path@.len() > 1 ==> node_pl(grid.at(start)) is Some,
        forall|i: int, j: int|
            0 <= i < j < path@.len() ==> node_pl(grid.at(#[trigger] path@[i]))->Some_0 > node_pl(
                grid.at(#[trigger] path@[j]),
            )->Some_0,
        forall|i: int, j: int| 0 <= i < j < path@.len() ==> path@[i] != path@[j],
        forall|i: int|
            0 < i < path@.len() ==> spec_chosen_move(
                *grid,
                path@[i - 1],
                spec_path_last_dir(path@, i),
                target,
                #[trigger] path@[i],
            ),
        node_pl(grid.at(start)) == Some(0u32) ==> path@ == seq![start],
        spec_gradient(*grid) && node_pl(grid.at(start)) is Some ==> node_pl(
            grid.at(path@.last()),
        ) == Some(0u32),
{
    let mut path: Vec<Coords> = Vec::new();
    path.push(start);
    proof {
        assert(path@ =~= seq![start]);
    }
    let mut curr = start;
    let mut curr_direction: Option<LastDirection> = None;
    let mut curr_pl: u32 = match move_pl(grid, bounds, start) {
        Some(pl) => pl,
        None => 0,
    };

    while curr_pl > 0
        invariant
            grid.wf(),
            path@.len() >= 1,
            path@[0] == start,
            path@.last() == curr,
            in_diamond(curr.x as int, curr.y as int),
            forall|i: int|
                0 <= i < path@.len() ==> in_diamond(
                    (#[trigger] path@[i]).x as int,
                    path@[i].y as int,
                ),
            forall|i: int|
                0 < i < path@.len() ==> spec_adjacent(path@[i - 1], #[trigger] path@[i]),
            forall|i: int| 0 < i < path@.len() ==> node_open(grid.at(#[trigger] path@[i])),
            path@.len() > 1 ==> node_pl(grid.at(start)) is Some,
            curr_pl > 0 ==> node_pl(grid.at(curr)) == Some(curr_pl),
            path@.len() > 1 ==> node_pl(grid.at(curr)) == Some(curr_pl),
            node_pl(grid.at(start)) is Some ==> node_pl(grid.at(curr)) == Some(curr_pl),
            curr_direction == spec_path_last_dir(path@, path@.len() as int),
            forall|i: int|
                0 < i < path@.len() ==> spec_chosen_move(
                    *grid,
                    path@[i - 1],
                    spec_path_last_dir(path@, i),
                    target,
                    #[trigger] path@[i],
                ),
            forall|i: int| 0 < i < path@.len() ==> node_pl(grid.at(#[trigger] path@[i])) is Some,
            forall|i: int, j: int|
                0 <= i < j < path@.len() ==> node_pl(grid.at(#[trigger] path@[i]))->Some_0
                    > node_pl(grid.at(#[trigger] path@[j]))->Some_0,
            node_pl(grid.at(start)) == Some(0u32) ==> (curr_pl == 0 && path@ == seq![start]),
        ensures
            path@.len() >= 1,
            path@[0] == start,
            forall|i: int|
                0 <= i < path@.len() ==> in_diamond(
                    (#[trigger] path@[i]).x as int,
                    path@[i].y as int,
                ),
            forall|i: int|
                0 < i < path@.len() ==> spec_adjacent(path@[i - 1], #[trigger] path@[i]),
            forall|i: int| 0 < i < path@.len() ==> node_open(grid.at(#[trigger] path@[i])),
            path@.len() > 1 ==> node_pl(grid.at(start)) is Some,
            forall|i: int| 0 < i < path@.len() ==> node_pl(grid.at(#[trigger] path@[i])) is Some,
            forall|i: int, j: int|
                0 <= i < j < path@.len() ==> node_pl(grid.at(#[trigger] path@[i]))->Some_0
                    > node_pl(grid.at(#[trigger] path@[j]))->Some_0,
            forall|i: int|
                0 < i < path@.len() ==> spec_chosen_move(
                    *grid,
                    path@[i - 1],
                    spec_path_last_dir(path@, i),
                    target,
                    #[trigger] path@[i],
                ),
            node_pl(grid.at(start)) == Some(0u32) ==> path@ == seq![start],
            spec_gradient(*grid) && node_pl(grid.at(start)) is Some ==> (path@.last() == curr
                && node_pl(grid.at(curr)) == Some(0u32)),
        decreases curr_pl,
    {
        // the next tile
        let next = match next_move(curr, target, grid, bounds, curr_direction) {
            Some(n) => {
                proof {
                    lemma_chosen_move_is_candidate(*grid, curr, curr_direction, target, n);
                }
                n
            },
            None => {
                proof {
                    if spec_gradient(*grid) && node_pl(grid.at(start)) is Some {
                        lemma_diamond_in_bounds(curr.x as int, curr.y as int);
                        lemma_gradient_has_candidate(*grid, curr, curr_pl);
                        assert(false);
                    }
                }
                break ;
            },
        };
        let next_pl: u32 = match move_pl(grid, bounds, next) {
            Some(pl) => pl,
            None => vstd::pervasive::unreached(),
        };
        // breadth-first distances strictly descend along the chosen moves
        if next_pl >= curr_pl {
            proof {
                if spec_gradient(*grid) && node_pl(grid.at(start)) is Some {
                    lemma_diamond_in_bounds(curr.x as int, curr.y as int);
                    lemma_gradient_has_candidate(*grid, curr, curr_pl);
                    let m = choose|m: Coords|
                        #[trigger] spec_candidate(*grid, curr, m) && spec_candidate_pl(*grid, m)
                            == (curr_pl - 1) as u32;
                    lemma_chosen_move_min(*grid, curr, curr_direction, target, next, m);
                    assert(false);
                }
            }
            break ;
        }
        // update the current direction
        curr_direction = match direction_difference(curr, next) {
            Ok(d) => Some(d),
            Err(_) => vstd::pervasive::unreached(),
        };
        // build the list
        curr = next;
        path.push(next);
        curr_pl = next_pl;
    }

    path
}


/// A reachable cell, and the start it is reached from, are open arena
/// cells.
proof fn lemma_grid_reaches_open(g: Grid<Node>, start: Coords, c: Coords)
    requires
        spec_grid_reaches(g, start, c),
    ensures
        in_diamond(c.x as int, c.y as int),
        node_open(g.at(c)),
        in_diamond(start.x as int, start.y as int),
        node_open(g.at(start)),
{
    reveal(spec_grid_reaches);
    let p = choose|p: Seq<Coords>|
        #[trigger] spec_open_path(g, p) && p.first() == start && p.last() == c;
    assert(in_diamond((p[0]).x as int, p[0].y as int) && node_open(g.at(p[0])));
    assert(in_diamond((p[p.len() - 1]).x as int, p[p.len() - 1].y as int) && node_open(
        g.at(p[p.len() - 1]),
    ));
}

/// If some cell of the start's pocket carries distance zero in a closed
/// field over the same kinds, the start itself carries a distance.
proof fn lemma_start_assigned_via(ginit: Grid<Node>, g: Grid<Node>, start: Coords, c: Coords)
    requires
        forall|c2: Coords| grid_in_bounds(c2) ==> same_kind(#[trigger] ginit.at(c2), g.at(c2)),
        spec_field_closed(g),
        spec_grid_reaches(ginit, start, c),
        node_pl(g.at(c)) == Some(0u32),
    ensures
        node_pl(g.at(start)) is Some,
{
    reveal(spec_grid_reaches);
    let p = choose|p: Seq<Coords>|
        #[trigger] spec_open_path(ginit, p) && p.first() == start && p.last() == c;
    lemma_path_kind_transfer(ginit, g, p);
    lemma_reverse_path(g, p);
    assert(p.reverse().first() == c && p.reverse().last() == start);
    lemma_closed_field_bounds_distance(g, p.reverse());
}

impl MapState {
    /// If a mobile unit were spawned at `start`, and it navigated through
    /// the map without any structures changing or the unit dying, predict
    /// the path it would take toward the target edge.
    ///
    /// Fails, carrying the blocking unit, exactly when a structure
    /// occupies the start cell. A successful path is an open walk that
    /// begins at the start cell, never revisits a cell, and ends on the
    /// target edge whenever the start's pocket reaches that edge —
    /// otherwise at the pocket cell with the highest idealness score.
    /// Every step follows the engine's move selection over a breadth-first
    /// distance field whose zero cells are exactly the destination set.
    pub fn pathfind(&self, bounds: &MapBounds, start: Coords, target: MapEdge) -> (r: Result<
        Vec<Coords>,
        StartedAtWall,
    >)
        requires
            self.wf(),
            in_diamond(start.x as int, start.y as int),
        ensures
            r is Err <==> self.wall_at(start) is Some,
            r matches Err(e) ==> e.0 == start && e.1 == self.wall_at(start)->Some_0,
            r matches Ok(path) ==> ({
                &&& path@.len() >= 1
                &&& path@[0] == start
                &&& (forall|i: int|
                    0 <= i < path@.len() ==> in_diamond(
                        (#[trigger] path@[i]).x as int,
                        path@[i].y as int,
                    ))
                &&& (forall|i: int|
                    0 < i < path@.len() ==> spec_adjacent(path@[i - 1], #[trigger] path@[i]))
                &&& (forall|i: int|
                    0 <= i < path@.len() ==> #[trigger] self.wall_at(path@[i]) is None)
                &&& (forall|i: int, j: int|
                    0 <= i < j < path@.len() ==> path@[i] != path@[j])
                &&& spec_board_path(*self, path@)
                &&& (spec_edge_reachable(*self, start, target) ==> on_edge(
                    target,
                    (path@.last()).x as int,
                    path@.last().y as int,
                ))
                &&& (!spec_edge_reachable(*self, start, target) ==> (spec_pocket_reaches(
                    *self,
                    start,
                    path@.last(),
                ) && (forall|c: Coords|
                    #[trigger] spec_pocket_reaches(*self, start, c) ==> spec_idealness(
                        c.x as int,
                        c.y as int,
                        target,
                    ) <= spec_idealness(
                        (path@.last()).x as int,
                        path@.last().y as int,
                        target,
                    ))))
                &&& (exists|g: Grid<Node>|
                    {
                        &&& #[trigger] spec_node_grid_for(*self, g)
                        &&& spec_gradient(g)
                        &&& spec_field_closed(g)
                        &&& node_pl(g.at(path@.last())) == Some(0u32)
                        &&& (forall|c: Coords|
                            grid_in_bounds(c) ==> (node_pl(#[trigger] g.at(c)) == Some(0u32)
                                <==> (if spec_edge_reachable(*self, start, target) {
                                on_edge(target, c.x as int, c.y as int) && spec_board_open(
                                    *self,
                                    c,
                                )
                            } else {
                                c == path@.last()
                            })))
                        &&& (forall|i: int|
                            0 < i < path@.len() ==> spec_chosen_move(
                                g,
                                path@[i - 1],
                                spec_path_last_dir(path@, i),
                                target,
                                #[trigger] path@[i],
                            ))
                    })
                &&& (on_edge(target, start.x as int, start.y as int) ==> path@ == seq![start])
            }),
    {
        proof {
            lemma_diamond_in_bounds(start.x as int, start.y as int);
        }
        // we cannot pathfind if we start at a wall
        match self.wall_unit(start) {
            Some(wall) => {
                return Err(StartedAtWall(start, wall.duplicate()));
            },
            None => (),
        }

        // create the grid of nodes
        let mut grid = build_node_grid(self, bounds);
        let ghost initial_grid = grid;
        proof {
            assert(grid.at(start) == spec_initial_node(*self, start));
            assert(node_open(grid.at(start)));
            assert forall|c: Coords| grid_in_bounds(c) implies !node_visited(grid.at(c)) by {
                assert(grid.at(c) == spec_initial_node(*self, c));
            }
        }

        // perform the idealness search of the pocket
        let ideal_tiles = idealness_search(bounds, start, target, &mut grid);
        let ghost searched_grid = grid;
        proof {
            assert forall|i: int| 0 <= i < ideal_tiles@.len() implies in_diamond(
                ideal_tiles@[i].x as int,
                ideal_tiles@[i].y as int,
            ) by {
                if ideal_tiles@.len() == EDGE_LENGTH {
                    crate::bounds::lemma_edge_cell_on_edge(target, i);
                    crate::bounds::lemma_edge_cells_in_arena(
                        target,
                        ideal_tiles@[i].x as int,
                        ideal_tiles@[i].y as int,
                    );
                }
            }
            assert forall|i: int| 0 <= i < ideal_tiles@.len() implies grid_in_bounds(
                ideal_tiles@[i],
            ) by {
                lemma_diamond_in_bounds(ideal_tiles@[i].x as int, ideal_tiles@[i].y as int);
            }
            if on_edge(target, start.x as int, start.y as int) {
                lemma_on_edge_iff(target, start.x as int, start.y as int);
            }
        }

        // validate the pocket
        validate(&mut grid, &ideal_tiles);

        // get the path
        let path = get_path(start, target, &grid, bounds);
        proof {
            assert forall|i: int| 0 <= i < path@.len() implies #[trigger] self.wall_at(path@[i])
                is None by {
                let c = path@[i];
                if i > 0 {
                    assert(in_diamond(c.x as int, c.y as int));
                    lemma_diamond_in_bounds(c.x as int, c.y as int);
                    assert(grid_in_bounds(c));
                    assert(node_open(grid.at(c)));
                    assert(same_kind_and_pl(initial_grid.at(c), searched_grid.at(c)));
                    assert(same_kind_and_visited(searched_grid.at(c), grid.at(c)));
                    assert(initial_grid.at(c) == spec_initial_node(*self, c));
                }
            }

            // the final grid still carries the board's occupancy
            assert forall|c: Coords| grid_in_bounds(c) implies same_kind(
                #[trigger] grid.at(c),
                spec_initial_node(*self, c),
            ) by {
                assert(same_kind_and_pl(initial_grid.at(c), searched_grid.at(c)));
                assert(same_kind_and_visited(searched_grid.at(c), grid.at(c)));
                assert(initial_grid.at(c) == spec_initial_node(*self, c));
            }
            assert(spec_node_grid_for(*self, grid));
            assert forall|c: Coords| grid_in_bounds(c) implies same_kind(
                #[trigger] initial_grid.at(c),
                grid.at(c),
            ) && same_kind(grid.at(c), initial_grid.at(c)) by {
                assert(same_kind_and_pl(initial_grid.at(c), searched_grid.at(c)));
                assert(same_kind_and_visited(searched_grid.at(c), grid.at(c)));
            }

            // in either shape of the ideal set, some open ideal tile holds
            // distance zero and the start can reach it, so the start was
            // assigned a distance and the walk ended at zero
            if ideal_tiles@.len() == EDGE_LENGTH {
                let c = choose|c: Coords|
                    #[trigger] spec_grid_reaches(initial_grid, start, c) && on_edge(
                        target,
                        c.x as int,
                        c.y as int,
                    );
                lemma_grid_reaches_open(initial_grid, start, c);
                lemma_diamond_in_bounds(c.x as int, c.y as int);
                lemma_on_edge_iff(target, c.x as int, c.y as int);
                let i = choose|i: int|
                    0 <= i < EDGE_LENGTH && edge_cell(target, i) == (Coords {
                        x: (c.x as int) as i32,
                        y: (c.y as int) as i32,
                    }) && c.x as int == (c.x as int) as i32 && c.y as int == (c.y as int) as i32;
                assert(ideal_tiles@[i] == c);
                assert(node_open(searched_grid.at(c)));
                assert(node_pl(grid.at(c)) == Some(0u32));
                lemma_start_assigned_via(initial_grid, grid, start, c);
                lemma_reaches_kind_transfer(initial_grid, grid, start, c);
                lemma_board_grid_reaches(*self, grid, start, c);
                assert(spec_pocket_reaches(*self, start, c));
                assert(spec_edge_reachable(*self, start, target));
            } else {
                let b = ideal_tiles@[0];
                assert(spec_grid_reaches(initial_grid, start, b));
                lemma_grid_reaches_open(initial_grid, start, b);
                lemma_diamond_in_bounds(b.x as int, b.y as int);
                assert(node_open(searched_grid.at(b)));
                assert(node_pl(grid.at(b)) == Some(0u32));
                lemma_start_assigned_via(initial_grid, grid, start, b);
            }
            assert(node_pl(grid.at(start)) is Some);
            let last = path@.last();
            assert(node_pl(grid.at(last)) == Some(0u32));
            assert(in_diamond(last.x as int, last.y as int));
            lemma_diamond_in_bounds(last.x as int, last.y as int);
            let li = choose|i: int| 0 <= i < ideal_tiles@.len() && ideal_tiles@[i] == last;

            if ideal_tiles@.len() == EDGE_LENGTH {
                // the walk ended on the target edge
                crate::bounds::lemma_edge_cell_on_edge(target, li);
                assert(on_edge(target, last.x as int, last.y as int));
                // the distance-zero cells are exactly the open edge cells
                assert forall|c: Coords| grid_in_bounds(c) implies (node_pl(#[trigger] grid.at(c))
                    == Some(0u32) <==> (on_edge(target, c.x as int, c.y as int) && spec_board_open(
                    *self,
                    c,
                ))) by {
                    if node_pl(grid.at(c)) == Some(0u32) {
                        let zi = choose|i: int|
                            0 <= i < ideal_tiles@.len() && ideal_tiles@[i] == c;
                        crate::bounds::lemma_edge_cell_on_edge(target, zi);
                        assert(same_kind(grid.at(c), spec_initial_node(*self, c)));
                    }
                    if on_edge(target, c.x as int, c.y as int) && spec_board_open(*self, c) {
                        lemma_on_edge_iff(target, c.x as int, c.y as int);
                        let zi = choose|i: int|
                            0 <= i < EDGE_LENGTH && edge_cell(target, i) == (Coords {
                                x: (c.x as int) as i32,
                                y: (c.y as int) as i32,
                            }) && c.x as int == (c.x as int) as i32 && c.y as int == (
                            c.y as int) as i32;
                        assert(ideal_tiles@[zi] == c);
                        assert(same_kind(grid.at(c), spec_initial_node(*self, c)));
                        assert(node_open(searched_grid.at(c)));
                        assert(node_pl(grid.at(c)) == Some(0u32));
                    }
                }
            } else {
                // the distance-zero cell is the destination alone
                assert forall|c: Coords| grid_in_bounds(c) implies (node_pl(#[trigger] grid.at(c))
                    == Some(0u32) <==> c == path@.last()) by {
                    if node_pl(grid.at(c)) == Some(0u32) {
                        let zi = choose|i: int|
                            0 <= i < ideal_tiles@.len() && ideal_tiles@[i] == c;
                        assert(c == ideal_tiles@[0]);
                    }
                }
                // the walk ended at the pocket's best cell
                assert(last == ideal_tiles@[0]);
                lemma_reaches_kind_transfer(initial_grid, grid, start, last);
                lemma_board_grid_reaches(*self, grid, start, last);
                assert(spec_pocket_reaches(*self, start, last));
                // and no cell of the pocket touches the edge
                if spec_edge_reachable(*self, start, target) {
                    let ce = choose|c: Coords|
                        #[trigger] spec_pocket_reaches(*self, start, c) && on_edge(
                            target,
                            c.x as int,
                            c.y as int,
                        );
                    lemma_board_grid_reaches(*self, grid, start, ce);
                    lemma_reaches_kind_transfer(grid, initial_grid, start, ce);
                    assert(false);
                }
                // nor scores above it
                assert forall|c: Coords|
                    #[trigger] spec_pocket_reaches(*self, start, c) implies spec_idealness(
                    c.x as int,
                    c.y as int,
                    target,
                ) <= spec_idealness(last.x as int, last.y as int, target) by {
                    lemma_board_grid_reaches(*self, grid, start, c);
                    lemma_reaches_kind_transfer(grid, initial_grid, start, c);
                }
            }

            // the path itself is an open walk across the board
            assert(spec_board_path(*self, path@)) by {
                assert(forall|i: int|
                    0 <= i < path@.len() ==> spec_board_open(*self, #[trigger] path@[i]));
            }
        }

        Ok(path)
    }
}

} // verus!
