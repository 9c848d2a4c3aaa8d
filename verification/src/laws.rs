//! General properties of the transition rule and of cell editing, proved once
//! for every grid they speak of.

use vstd::prelude::*;

use crate::cell::{flip_cell, Cell};
use crate::universe::{
    cell_at, lemma_index_in_bounds, lemma_wrap_dec, lemma_wrap_inc, lemma_write_cell,
    neighbor_count, spec_index, step_cell, wrap_dec,
};

verus! {

/// No spontaneous life: on an all-Dead grid, every cell is still Dead in the
/// next generation.
pub proof fn lemma_step_all_dead(cells: Seq<Cell>, width: int, height: int, row: int, col: int)
    requires
        1 <= width,
        1 <= height,
        cells.len() == width * height,
        forall|r: int, c: int|
            0 <= r < height && 0 <= c < width ==> #[trigger] cell_at(cells, width, r, c)
                == Cell::Dead,
        0 <= row < height,
        0 <= col < width,
    ensures
        step_cell(cells, width, height, row, col) == Cell::Dead,
{
    lemma_wrap_dec(row, height);
    lemma_wrap_inc(row, height);
    lemma_wrap_dec(col, width);
    lemma_wrap_inc(col, width);
}

/// Underpopulation: an Alive cell that is the only Alive cell of the grid has
/// no Alive neighbors, and dies within one generation. On a grid with an axis
/// of extent 1, a cell is its own wrapped neighbor, so the statement asks for
/// extent at least 2 on both axes.
pub proof fn lemma_lone_cell_dies(cells: Seq<Cell>, width: int, height: int, row: int, col: int)
    requires
        2 <= width,
        2 <= height,
        cells.len() == width * height,
        0 <= row < height,
        0 <= col < width,
        cell_at(cells, width, row, col) == Cell::Alive,
        forall|r: int, c: int|
            0 <= r < height && 0 <= c < width && (r != row || c != col)
                ==> #[trigger] cell_at(cells, width, r, c) == Cell::Dead,
    ensures
        neighbor_count(cells, width, height, row, col) == 0,
        step_cell(cells, width, height, row, col) == Cell::Dead,
{
    lemma_wrap_dec(row, height);
    lemma_wrap_inc(row, height);
    lemma_wrap_dec(col, width);
    lemma_wrap_inc(col, width);
}

/// Membership in the 2-by-2 block with corners (1, 1) and (2, 2).
pub open spec fn in_block(row: int, col: int) -> bool {
    1 <= row <= 2 && 1 <= col <= 2
}

/// A 2-by-2 block is a still life: on a grid of at least 4 cells on each axis
/// whose only Alive cells form the block with corners (1, 1) and (2, 2),
/// every cell keeps its state across one generation.
pub proof fn lemma_block_is_still_life(
    cells: Seq<Cell>,
    width: int,
    height: int,
    row: int,
    col: int,
)
    requires
        4 <= width,
        4 <= height,
        cells.len() == width * height,
        0 <= row < height,
        0 <= col < width,
        forall|r: int, c: int|
            0 <= r < height && 0 <= c < width ==> #[trigger] cell_at(cells, width, r, c) == (
            if in_block(r, c) {
                Cell::Alive
            } else {
                Cell::Dead
            }),
    ensures
        step_cell(cells, width, height, row, col) == cell_at(cells, width, row, col),
{
    lemma_wrap_dec(row, height);
    lemma_wrap_inc(row, height);
    lemma_wrap_dec(col, width);
    lemma_wrap_inc(col, width);
}

/// `toggle_cell` flips exactly one cell and is its own inverse: the toggled
/// grid differs from the old one at `(row, col)` alone, and toggling the same
/// cell again restores the old grid.
pub proof fn lemma_toggle_involutive(cells: Seq<Cell>, width: int, height: int, row: int, col: int)
    requires
        cells.len() == width * height,
        0 <= row < height,
        0 <= col < width,
    ensures
        ({
            let idx = spec_index(width, row, col);
            let once = cells.update(idx, flip_cell(cell_at(cells, width, row, col)));
            &&& cell_at(once, width, row, col) == flip_cell(cell_at(cells, width, row, col))
            &&& forall|r: int, c: int|
                0 <= r < height && 0 <= c < width && (r != row || c != col)
                    ==> #[trigger] cell_at(once, width, r, c) == cell_at(cells, width, r, c)
            &&& once.update(idx, flip_cell(cell_at(once, width, row, col))) == cells
        }),
{
    let idx = spec_index(width, row, col);
    let once = cells.update(idx, flip_cell(cell_at(cells, width, row, col)));
    let twice = once.update(idx, flip_cell(cell_at(once, width, row, col)));
    lemma_index_in_bounds(width, height, row, col);
    lemma_write_cell(
        cells,
        once,
        width,
        height,
        row,
        col,
        flip_cell(cell_at(cells, width, row, col)),
    );
    assert(twice =~= cells);
}

/// Toroidal wraparound: the slot diagonally up-left of the corner cell
/// (0, 0) is the opposite corner (height - 1, width - 1), so an Alive cell
/// there is counted among (0, 0)'s neighbors.
pub proof fn lemma_corner_wraps_diagonally(cells: Seq<Cell>, width: int, height: int)
    requires
        1 <= width,
        1 <= height,
        cells.len() == width * height,
    ensures
        wrap_dec(0, height) == height - 1,
        wrap_dec(0, width) == width - 1,
        cell_at(cells, width, height - 1, width - 1) == Cell::Alive ==> neighbor_count(
            cells,
            width,
            height,
            0,
            0,
        ) >= 1,
{
    lemma_wrap_dec(0, height);
    lemma_wrap_dec(0, width);
}

} // verus!
