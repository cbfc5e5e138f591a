//! A dense, board-sized container addressed by coordinates.

use vstd::prelude::*;

use crate::bounds::BOARD_SIZE;
use crate::coords::Coords;

verus! {

/// True iff `c` addresses one of the `BOARD_SIZE` x `BOARD_SIZE` cells.
pub open spec fn grid_in_bounds(c: Coords) -> bool {
    0 <= c.x < BOARD_SIZE && 0 <= c.y < BOARD_SIZE
}

/// Position of cell `c` in the flat, column-major cell sequence.
pub open spec fn grid_index(c: Coords) -> int {
    c.x * (BOARD_SIZE as int) + c.y
}

/// A grid of elements equal in size to the game board.
///
/// Cells are stored in a flat sequence, one entry per coordinate, so that
/// every access is a checked index computation.
pub struct Grid<T> {
    cells: Vec<T>,
}

impl<T> View for Grid<T> {
    type V = Seq<T>;

    closed spec fn view(&self) -> Seq<T> {
        self.cells@
    }
}

impl<T> Grid<T> {
    /// A grid is well formed when it holds exactly one element per board cell.
    pub open spec fn wf(&self) -> bool {
        self@.len() == BOARD_SIZE * BOARD_SIZE
    }

    /// The element stored at coordinate `c`.
    pub open spec fn at(&self, c: Coords) -> T {
        self@[grid_index(c)]
    }

    /// Build a grid from one element per cell, in column-major order: the
    /// element for coordinate `(x, y)` sits at position `x * BOARD_SIZE + y`.
    pub fn from_cells(cells: Vec<T>) -> (r: Grid<T>)
        requires
            cells@.len() == BOARD_SIZE * BOARD_SIZE,
        ensures
            r@ == cells@,
            r.wf(),
    {
        Grid { cells }
    }

    /// Get the element at some coordinates, by reference; absent exactly
    /// when the coordinate lies outside the board.
    pub fn get(&self, c: Coords) -> (r: Option<&T>)
        requires
            self.wf(),
        ensures
            r == (if grid_in_bounds(c) {
                Some(&self@[grid_index(c)])
            } else {
                None::<&T>
            }),
    {
        if c.x >= 0 && c.y >= 0 && (c.x as usize) < BOARD_SIZE && (c.y as usize) < BOARD_SIZE {
            let i: usize = (c.x as usize) * BOARD_SIZE + (c.y as usize);
            Some(&self.cells[i])
        } else {
            None
        }
    }

    /// Replace the element at some coordinates; reports absence, leaving the
    /// grid unchanged, exactly when the coordinate lies outside the board.
    pub fn set(&mut self, c: Coords, value: T) -> (r: bool)
        requires
            old(self).wf(),
        ensures
            final(self).wf(),
            r == grid_in_bounds(c),
            grid_in_bounds(c) ==> final(self)@ == old(self)@.update(grid_index(c), value),
            !grid_in_bounds(c) ==> final(self)@ == old(self)@,
    {
        if c.x >= 0 && c.y >= 0 && (c.x as usize) < BOARD_SIZE && (c.y as usize) < BOARD_SIZE {
            let i: usize = (c.x as usize) * BOARD_SIZE + (c.y as usize);
            self.cells[i] = value;
            true
        } else {
            false
        }
    }
}

impl<T> Grid<Vec<T>> {
    /// Append a value to the sequence stored at some coordinates; reports
    /// absence, leaving the grid unchanged, exactly when the coordinate
    /// lies outside the board.
    pub fn push_at(&mut self, c: Coords, value: T) -> (r: bool)
        requires
            old(self).wf(),
        ensures
            final(self).wf(),
            r == grid_in_bounds(c),
            grid_in_bounds(c) ==> final(self)@[grid_index(c)]@ == old(self)@[grid_index(c)]@.push(
                value,
            ),
            grid_in_bounds(c) ==> forall|j: int|
                0 <= j < old(self)@.len() && j != grid_index(c) ==> final(self)@[j] == old(
                    self,
                )@[j],
            !grid_in_bounds(c) ==> final(self)@ == old(self)@,
    {
        if c.x >= 0 && c.y >= 0 && (c.x as usize) < BOARD_SIZE && (c.y as usize) < BOARD_SIZE {
            let i: usize = (c.x as usize) * BOARD_SIZE + (c.y as usize);
            self.cells[i].push(value);
            true
        } else {
            false
        }
    }
}

/// A grid holding the same copyable value in every cell.
pub fn grid_of_copies<T: Copy>(value: T) -> (g: Grid<T>)
    ensures
        g.wf(),
        forall|i: int| 0 <= i < BOARD_SIZE * BOARD_SIZE ==> g@[i] == value,
{
    let mut cells: Vec<T> = Vec::new();
    for i in 0..BOARD_SIZE * BOARD_SIZE
        invariant
            cells@.len() == i,
            forall|j: int| 0 <= j < i ==> cells@[j] == value,
    {
        cells.push(value);
    }
    Grid { cells }
}

/// A grid with no element present at any cell.
pub fn grid_of_none<T>() -> (g: Grid<Option<T>>)
    ensures
        g.wf(),
        forall|i: int| 0 <= i < BOARD_SIZE * BOARD_SIZE ==> g@[i] is None,
{
    let mut cells: Vec<Option<T>> = Vec::new();
    for i in 0..BOARD_SIZE * BOARD_SIZE
        invariant
            cells@.len() == i,
            forall|j: int| 0 <= j < i ==> cells@[j] is None,
    {
        cells.push(None);
    }
    Grid { cells }
}

/// A grid with an empty sequence at every cell.
pub fn grid_of_empty_vecs<T>() -> (g: Grid<Vec<T>>)
    ensures
        g.wf(),
        forall|i: int| #![auto] 0 <= i < BOARD_SIZE * BOARD_SIZE ==> g@[i]@ == Seq::<T>::empty(),
{
    let mut cells: Vec<Vec<T>> = Vec::new();
    for i in 0..BOARD_SIZE * BOARD_SIZE
        invariant
            cells@.len() == i,
            forall|j: int| #![auto] 0 <= j < i ==> cells@[j]@ == Seq::<T>::empty(),
    {
        cells.push(Vec::new());
    }
    Grid { cells }
}

} // verus!
