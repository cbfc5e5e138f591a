//! Integer coordinate pairs addressing board cells.

use vstd::prelude::*;

verus! {

/// An XY pair of `i32` coordinates.
///
/// A coordinate has no validity of its own; validity is always relative to
/// the board geometry in `bounds`.
#[derive(Copy, Clone, PartialEq, Eq, Structural, Debug, Hash)]
pub struct Coords {
    pub x: i32,
    pub y: i32,
}

/// The cell directly above `c`.
pub open spec fn up(c: Coords) -> Coords {
    Coords { x: c.x, y: (c.y + 1) as i32 }
}

/// The cell directly below `c`.
pub open spec fn down(c: Coords) -> Coords {
    Coords { x: c.x, y: (c.y - 1) as i32 }
}

/// The cell directly to the left of `c`.
pub open spec fn left(c: Coords) -> Coords {
    Coords { x: (c.x - 1) as i32, y: c.y }
}

/// The cell directly to the right of `c`.
pub open spec fn right(c: Coords) -> Coords {
    Coords { x: (c.x + 1) as i32, y: c.y }
}

impl Coords {
    /// Construct a new pair of coordinates from x and y.
    pub fn xy(x: i32, y: i32) -> (r: Coords)
        ensures
            r == (Coords { x, y }),
    {
        Coords { x, y }
    }

    /// All 4 adjacent coordinates: up, down, left, right.
    pub fn neighbors(self) -> (r: [Coords; 4])
        requires
            i32::MIN < self.x < i32::MAX,
            i32::MIN < self.y < i32::MAX,
        ensures
            r@ == seq![up(self), down(self), left(self), right(self)],
    {
        let r = [
            Coords { x: self.x, y: self.y + 1 },
            Coords { x: self.x, y: self.y - 1 },
            Coords { x: self.x - 1, y: self.y },
            Coords { x: self.x + 1, y: self.y },
        ];
        proof {
            assert(r@ =~= seq![up(self), down(self), left(self), right(self)]);
        }
        r
    }
}

impl Coords {
    /// Is this coord inside the playable arena?
    pub fn is_in_arena(self, bounds: &crate::bounds::MapBounds) -> (r: bool)
        ensures
            r == crate::bounds::in_diamond(self.x as int, self.y as int),
    {
        bounds.is_in_arena(self)
    }

    /// Is this coord on the given edge of the board?
    pub fn is_on_edge(self, bounds: &crate::bounds::MapBounds, edge: crate::bounds::MapEdge) -> (r:
        bool)
        ensures
            r == crate::bounds::on_edge(edge, self.x as int, self.y as int),
    {
        bounds.is_on_edge(edge, self)
    }
}

/// Construct a new pair of coordinates from x and y.
pub fn xy(x: i32, y: i32) -> (r: Coords)
    ensures
        r == (Coords { x, y }),
{
    Coords { x, y }
}

} // verus!
