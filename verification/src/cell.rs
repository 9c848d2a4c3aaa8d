//! The two-valued cell state and the per-cell transition rule.

use vstd::prelude::*;

verus! {

/// State of a single grid cell.
///
/// A host renderer that reads the buffer as raw memory encodes `Dead` as 0 and
/// `Alive` as 1; that encoding is the host boundary's concern, not this
/// crate's, so the type here is a plain enum.
#[derive(Clone, Copy, Debug, PartialEq, Eq, Structural)]
pub enum Cell {
    Dead,
    Alive,
}

/// The opposite state: `Dead` for `Alive` and `Alive` for `Dead`.
pub open spec fn flip_cell(c: Cell) -> Cell {
    match c {
        Cell::Alive => Cell::Dead,
        Cell::Dead => Cell::Alive,
    }
}

/// The standard rule set, as a function of a cell's state and its number of
/// Alive neighbors: an Alive cell survives with 2 or 3 Alive neighbors and
/// otherwise dies; a Dead cell is born with exactly 3 Alive neighbors and
/// otherwise stays Dead.
pub open spec fn next_cell(c: Cell, alive_neighbors: int) -> Cell {
    match c {
        Cell::Alive => if 2 <= alive_neighbors <= 3 {
            Cell::Alive
        } else {
            Cell::Dead
        },
        Cell::Dead => if alive_neighbors == 3 {
            Cell::Alive
        } else {
            Cell::Dead
        },
    }
}

impl Cell {
    /// Flip this cell in place, Dead to Alive and Alive to Dead.
    pub fn toggle(&mut self)
        ensures
            *final(self) == flip_cell(*old(self)),
    {
        *self = match *self {
            Cell::Alive => Cell::Dead,
            Cell::Dead => Cell::Alive,
        }
    }
}

} // verus!
