//! The grid: dimensions, flat row-major cell buffer, and the per-generation
//! transition.

use vstd::arithmetic::div_mod::{
    lemma_fundamental_div_mod_converse, lemma_mod_multiples_vanish, lemma_mod_self_0,
    lemma_small_mod,
};
use vstd::prelude::*;

use crate::cell::{flip_cell, next_cell, Cell};

verus! {

/// Default number of columns of a freshly constructed grid.
pub const DEFAULT_WIDTH: usize = 64;

/// Default number of rows of a freshly constructed grid.
pub const DEFAULT_HEIGHT: usize = 64;

/// Row-major index of the cell at `(row, col)` in a grid `width` cells wide.
pub open spec fn spec_index(width: int, row: int, col: int) -> int {
    row * width + col
}

/// The cell at `(row, col)` of a flat row-major buffer `width` cells wide.
pub open spec fn cell_at(cells: Seq<Cell>, width: int, row: int, col: int) -> Cell {
    cells[spec_index(width, row, col)]
}

/// The coordinate one step before `i` on a wrapped axis of extent `m`:
/// `i + (m - 1)` taken modulo `m`, so that row 0's previous row is the last
/// row, and likewise for columns.
pub open spec fn wrap_dec(i: int, m: int) -> int {
    (i + m - 1) % m
}

/// The coordinate one step after `i` on a wrapped axis of extent `m`:
/// `i + 1` taken modulo `m`, so that the last row's next row is row 0, and
/// likewise for columns.
pub open spec fn wrap_inc(i: int, m: int) -> int {
    (i + 1) % m
}

/// 1 for an Alive cell, 0 for a Dead one.
pub open spec fn alive_as_int(c: Cell) -> int {
    match c {
        Cell::Alive => 1,
        Cell::Dead => 0,
    }
}

/// Number of Alive cells among the eight toroidally wrapped neighbor slots of
/// `(row, col)`: row offsets `{m - 1, 0, 1}` crossed with column offsets
/// `{m - 1, 0, 1}` modulo the respective extent, the `(0, 0)` offset excluded.
/// On an axis of extent 1 or 2 some slots coincide; each slot still counts
/// once, as a slot.
pub open spec fn neighbor_count(
    cells: Seq<Cell>,
    width: int,
    height: int,
    row: int,
    col: int,
) -> int {
    let up = wrap_dec(row, height);
    let down = wrap_inc(row, height);
    let left = wrap_dec(col, width);
    let right = wrap_inc(col, width);
    alive_as_int(cell_at(cells, width, up, left)) + alive_as_int(cell_at(cells, width, up, col))
        + alive_as_int(cell_at(cells, width, up, right)) + alive_as_int(
        cell_at(cells, width, row, left),
    ) + alive_as_int(cell_at(cells, width, row, right)) + alive_as_int(
        cell_at(cells, width, down, left),
    ) + alive_as_int(cell_at(cells, width, down, col)) + alive_as_int(
        cell_at(cells, width, down, right),
    )
}

/// The state of the cell at `(row, col)` in the next generation: the rule set
/// applied to its current state and its count of Alive neighbors.
pub open spec fn step_cell(
    cells: Seq<Cell>,
    width: int,
    height: int,
    row: int,
    col: int,
) -> Cell {
    next_cell(cell_at(cells, width, row, col), neighbor_count(cells, width, height, row, col))
}

/// On an axis of extent `m`, stepping back from an in-range coordinate lands
/// on the previous coordinate, wrapping 0 around to `m - 1`.
pub proof fn lemma_wrap_dec(i: int, m: int)
    requires
        0 <= i < m,
    ensures
        wrap_dec(i, m) == if i == 0 {
            m - 1
        } else {
            i - 1
        },
{
    if i == 0 {
        lemma_small_mod((m - 1) as nat, m as nat);
    } else {
        lemma_mod_multiples_vanish(1, i - 1, m);
        lemma_small_mod((i - 1) as nat, m as nat);
    }
}

/// On an axis of extent `m`, stepping forward from an in-range coordinate
/// lands on the next coordinate, wrapping `m - 1` around to 0.
pub proof fn lemma_wrap_inc(i: int, m: int)
    requires
        0 <= i < m,
    ensures
        wrap_inc(i, m) == if i == m - 1 {
            0
        } else {
            i + 1
        },
{
    if i == m - 1 {
        lemma_mod_self_0(m);
    } else {
        lemma_small_mod((i + 1) as nat, m as nat);
    }
}

/// The row-major index of an in-range coordinate lies within a buffer of
/// `width * height` cells.
pub proof fn lemma_index_in_bounds(width: int, height: int, row: int, col: int)
    requires
        0 <= row < height,
        0 <= col < width,
    ensures
        0 <= spec_index(width, row, col) < width * height,
{
    assert(0 <= row * width + col < width * height) by (nonlinear_arith)
        requires
            0 <= row < height,
            0 <= col < width,
    ;
}

/// Row-major indexing is injective over the grid's coordinate space: two
/// in-range coordinates with the same index are the same coordinate.
pub proof fn lemma_index_injective(width: int, height: int, r1: int, c1: int, r2: int, c2: int)
    requires
        0 <= r1 < height,
        0 <= c1 < width,
        0 <= r2 < height,
        0 <= c2 < width,
        spec_index(width, r1, c1) == spec_index(width, r2, c2),
    ensures
        r1 == r2,
        c1 == c2,
{
    lemma_fundamental_div_mod_converse(spec_index(width, r1, c1), width, r1, c1);
    lemma_fundamental_div_mod_converse(spec_index(width, r2, c2), width, r2, c2);
}

/// True when some entry of `coords` names the coordinate `(row, col)`.
pub open spec fn listed(coords: Seq<(usize, usize)>, row: int, col: int) -> bool {
    exists|k: int|
        0 <= k < coords.len() && (#[trigger] coords[k]).0 as int == row && coords[k].1 as int
            == col
}

/// Overwriting one cell changes that cell and no other: in a buffer updated
/// to `value` at the index of `(row, col)`, that cell reads `value` and every
/// other in-range coordinate reads as before.
pub proof fn lemma_write_cell(
    before: Seq<Cell>,
    after: Seq<Cell>,
    w: int,
    h: int,
    row: int,
    col: int,
    value: Cell,
)
    requires
        before.len() == w * h,
        0 <= row < h,
        0 <= col < w,
        after == before.update(spec_index(w, row, col), value),
    ensures
        after.len() == before.len(),
        cell_at(after, w, row, col) == value,
        forall|r: int, c: int|
            0 <= r < h && 0 <= c < w && (r != row || c != col) ==> cell_at(after, w, r, c)
                == cell_at(before, w, r, c),
{
    lemma_index_in_bounds(w, h, row, col);
    assert forall|r: int, c: int|
        0 <= r < h && 0 <= c < w && (r != row || c != col) implies cell_at(after, w, r, c)
        == cell_at(before, w, r, c) by {
        lemma_index_in_bounds(w, h, r, c);
        if spec_index(w, r, c) == spec_index(w, row, col) {
            lemma_index_injective(w, h, r, c, row, col);
        }
    }
}

/// Indices of a row-major traversal come in order: every coordinate strictly
/// before `(row, col)` has an index strictly below `row * width + col`.
proof fn lemma_row_major_prefix(width: int, r: int, c: int, row: int, col: int)
    requires
        0 <= r,
        0 <= c < width,
        0 <= col,
        r < row || (r == row && c < col),
    ensures
        0 <= spec_index(width, r, c) < row * width + col,
{
    assert(0 <= r * width + c < row * width + col) by (nonlinear_arith)
        requires
            0 <= r,
            0 <= c < width,
            0 <= col,
            r < row || (r == row && c < col),
    ;
}

/// A fresh buffer of `n` Dead cells.
fn dead_cells(n: usize) -> (v: Vec<Cell>)
    ensures
        v@.len() == n,
        forall|k: int| 0 <= k < n ==> v@[k] == Cell::Dead,
{
    let mut v: Vec<Cell> = Vec::new();
    let mut i: usize = 0;
    while i < n
        invariant
            i <= n,
            v@.len() == i,
            forall|k: int| 0 <= k < i ==> v@[k] == Cell::Dead,
        decreases n - i,
    {
        v.push(Cell::Dead);
        i = i + 1;
    }
    v
}

/// Bit pattern of one half as an IEEE 754 double-precision value. A
/// nonnegative double orders as its bit pattern does, so a draw from [0, 1)
/// lies below one half exactly when its bit pattern lies below this value.
pub const HALF_DRAW_BITS: u64 = 0x3FE0_0000_0000_0000;

/// Relies on `js_sys::Math::random`: one pseudo-random draw, approximately
/// uniform over [0, 1), from the host's random source, handed back as the raw
/// IEEE 754 bit pattern of the draw. Nothing is promised of the result: it is
/// a random value. The binding is backed only where a JavaScript host runs
/// the code.
#[verifier::external_body]
fn random_draw_bits() -> u64 {
    js_sys::Math::random().to_bits()
}

/// The cell one random draw yields: Alive exactly when the draw lies below
/// one half, so that a randomized grid sets each cell Alive with probability
/// one half. The draw arrives as the bit pattern of a double in [0, 1); see
/// [`HALF_DRAW_BITS`].
pub fn cell_from_draw(draw_bits: u64) -> (c: Cell)
    ensures
        c == if draw_bits < HALF_DRAW_BITS {
            Cell::Alive
        } else {
            Cell::Dead
        },
{
    if draw_bits < HALF_DRAW_BITS {
        Cell::Alive
    } else {
        Cell::Dead
    }
}

/// A fresh buffer of `n` cells, each drawn independently from the host's
/// random source: Alive with probability one half.
fn random_cells(n: usize) -> (v: Vec<Cell>)
    ensures
        v@.len() == n,
{
    let mut v: Vec<Cell> = Vec::new();
    let mut i: usize = 0;
    while i < n
        invariant
            i <= n,
            v@.len() == i,
        decreases n - i,
    {
        v.push(cell_from_draw(random_draw_bits()));
        i = i + 1;
    }
    v
}

/// A Universe owns a toroidal grid: its two dimensions and one flat,
/// row-major buffer of `width * height` cells.
pub struct Universe {
    width: usize,
    height: usize,
    cells: Vec<Cell>,
}

impl Universe {
    /// A grid of the default size. With `random` false every cell starts
    /// Dead; with `random` true each cell is set independently, Alive with
    /// probability one half, from the host's random source.
    pub fn new(random: bool) -> (u: Universe)
        ensures
            u.wf(),
            u.spec_width() == DEFAULT_WIDTH,
            u.spec_height() == DEFAULT_HEIGHT,
            !random ==> forall|k: int| 0 <= k < u.grid().len() ==> u.grid()[k] == Cell::Dead,
    {
        let width = DEFAULT_WIDTH;
        let height = DEFAULT_HEIGHT;
        let size = width * height;
        let cells = if random {
            random_cells(size)
        } else {
            dead_cells(size)
        };
        Universe { width, height, cells }
    }

    /// Number of columns of the grid.
    pub closed spec fn spec_width(self) -> int {
        self.width as int
    }

    /// Number of rows of the grid.
    pub closed spec fn spec_height(self) -> int {
        self.height as int
    }

    /// The cell buffer, in row-major order.
    pub closed spec fn grid(self) -> Seq<Cell> {
        self.cells@
    }

    /// The grid invariant: both dimensions are positive and the buffer holds
    /// exactly `width * height` cells (which therefore fit in a `usize`).
    pub open spec fn wf(self) -> bool {
        &&& 1 <= self.spec_width()
        &&& 1 <= self.spec_height()
        &&& self.grid().len() == self.spec_width() * self.spec_height()
        &&& self.grid().len() <= usize::MAX
    }

    /// Current number of columns.
    pub fn width(&self) -> (w: usize)
        ensures
            w == self.spec_width(),
    {
        self.width
    }

    /// Current number of rows.
    pub fn height(&self) -> (h: usize)
        ensures
            h == self.spec_height(),
    {
        self.height
    }

    /// Row-major index of `(row, col)`. Callers supply in-range coordinates;
    /// wrapping out-of-range ones is the caller's responsibility.
    pub fn get_index(&self, row: usize, col: usize) -> (i: usize)
        requires
            self.wf(),
            row < self.spec_height(),
            col < self.spec_width(),
        ensures
            i == spec_index(self.spec_width(), row as int, col as int),
            i < self.grid().len(),
    {
        proof {
            lemma_index_in_bounds(self.spec_width(), self.spec_height(), row as int, col as int);
        }
        row * self.width + col
    }

    /// 1 if the cell at the in-range coordinate `(row, col)` is Alive, else 0.
    fn alive_at(&self, row: usize, col: usize) -> (n: u8)
        requires
            self.wf(),
            row < self.spec_height(),
            col < self.spec_width(),
        ensures
            n == alive_as_int(cell_at(self.grid(), self.spec_width(), row as int, col as int)),
    {
        let i = self.get_index(row, col);
        match self.cells[i] {
            Cell::Alive => 1,
            Cell::Dead => 0,
        }
    }

    /// Number of Alive cells among the eight toroidally wrapped neighbor
    /// slots of `(row, col)`.
    fn count_alive_neighbors(&self, row: usize, col: usize) -> (count: u8)
        requires
            self.wf(),
            row < self.spec_height(),
            col < self.spec_width(),
        ensures
            count == neighbor_count(
                self.grid(),
                self.spec_width(),
                self.spec_height(),
                row as int,
                col as int,
            ),
            count <= 8,
    {
        let up = if row == 0 {
            self.height - 1
        } else {
            row - 1
        };
        let down = if row + 1 == self.height {
            0
        } else {
            row + 1
        };
        let left = if col == 0 {
            self.width - 1
        } else {
            col - 1
        };
        let right = if col + 1 == self.width {
            0
        } else {
            col + 1
        };
        proof {
            lemma_wrap_dec(row as int, self.spec_height());
            lemma_wrap_inc(row as int, self.spec_height());
            lemma_wrap_dec(col as int, self.spec_width());
            lemma_wrap_inc(col as int, self.spec_width());
        }
        let mut count: u8 = 0;
        count += self.alive_at(up, left);
        count += self.alive_at(up, col);
        count += self.alive_at(up, right);
        count += self.alive_at(row, left);
        count += self.alive_at(row, right);
        count += self.alive_at(down, left);
        count += self.alive_at(down, col);
        count += self.alive_at(down, right);
        count
    }

    /// Compute the next generation from the current one and replace the
    /// stored state in one step: every cell's new state is the rule set
    /// applied to its old state and its old count of Alive neighbors.
    pub fn tick(&mut self)
        requires
            old(self).wf(),
        ensures
            final(self).wf(),
            final(self).spec_width() == old(self).spec_width(),
            final(self).spec_height() == old(self).spec_height(),
            final(self).grid().len() == old(self).grid().len(),
            forall|r: int, c: int|
                0 <= r < old(self).spec_height() && 0 <= c < old(self).spec_width()
                    ==> cell_at(final(self).grid(), old(self).spec_width(), r, c) == step_cell(
                    old(self).grid(),
                    old(self).spec_width(),
                    old(self).spec_height(),
                    r,
                    c,
                ),
    {
        let ghost orig = *self;
        let ghost w = orig.spec_width();
        let ghost h = orig.spec_height();
        let mut next: Vec<Cell> = Vec::new();
        let mut row: usize = 0;
        while row < self.height
            invariant
                *self == orig,
                orig.wf(),
                row <= h,
                w == orig.spec_width(),
                h == orig.spec_height(),
                next@.len() == row * w,
                forall|r: int, c: int|
                    0 <= r < row && 0 <= c < w ==> cell_at(next@, w, r, c) == step_cell(
                        orig.grid(),
                        w,
                        h,
                        r,
                        c,
                    ),
            decreases h - row,
        {
            let mut col: usize = 0;
            while col < self.width
                invariant
                    *self == orig,
                    orig.wf(),
                    row < h,
                    col <= w,
                    w == orig.spec_width(),
                    h == orig.spec_height(),
                    next@.len() == row * w + col,
                    forall|r: int, c: int|
                        0 <= r && 0 <= c < w && (r < row || (r == row && c < col)) ==> cell_at(
                            next@,
                            w,
                            r,
                            c,
                        ) == step_cell(orig.grid(), w, h, r, c),
                decreases w - col,
            {
                let index = self.get_index(row, col);
                let cell = self.cells[index];
                let alive_neighbors = self.count_alive_neighbors(row, col);
                let next_cell_value = match cell {
                    Cell::Alive => if alive_neighbors == 2 || alive_neighbors == 3 {
                        Cell::Alive
                    } else {
                        Cell::Dead
                    },
                    Cell::Dead => if alive_neighbors == 3 {
                        Cell::Alive
                    } else {
                        Cell::Dead
                    },
                };
                let ghost prev = next@;
                next.push(next_cell_value);
                proof {
                    assert(next_cell_value == step_cell(orig.grid(), w, h, row as int, col as int));
                    assert forall|r: int, c: int|
                        0 <= r && 0 <= c < w && (r < row || (r == row && c < col + 1)) implies
                        cell_at(next@, w, r, c) == step_cell(orig.grid(), w, h, r, c) by {
                        if r < row || (r == row && c < col) {
                            lemma_row_major_prefix(w, r, c, row as int, col as int);
                            assert(cell_at(prev, w, r, c) == step_cell(orig.grid(), w, h, r, c));
                        }
                    }
                }
                col = col + 1;
            }
            proof {
                assert((row + 1) * w == row * w + w) by (nonlinear_arith);
            }
            row = row + 1;
        }
        proof {
            assert(h * w == w * h) by (nonlinear_arith);
        }
        self.cells = next;
    }

    /// Change the number of columns and reset the whole grid to all Dead at
    /// the new size. A destructive reset: no old content survives.
    pub fn set_width(&mut self, width: usize)
        requires
            old(self).wf(),
            1 <= width,
            width * old(self).spec_height() <= usize::MAX,
        ensures
            final(self).wf(),
            final(self).spec_width() == width,
            final(self).spec_height() == old(self).spec_height(),
            final(self).grid().len() == width * old(self).spec_height(),
            forall|k: int|
                0 <= k < final(self).grid().len() ==> final(self).grid()[k] == Cell::Dead,
    {
        self.width = width;
        self.cells = dead_cells(self.width * self.height);
    }

    /// Change the number of rows and reset the whole grid to all Dead at the
    /// new size. A destructive reset: no old content survives.
    pub fn set_height(&mut self, height: usize)
        requires
            old(self).wf(),
            1 <= height,
            old(self).spec_width() * height <= usize::MAX,
        ensures
            final(self).wf(),
            final(self).spec_width() == old(self).spec_width(),
            final(self).spec_height() == height,
            final(self).grid().len() == old(self).spec_width() * height,
            forall|k: int|
                0 <= k < final(self).grid().len() ==> final(self).grid()[k] == Cell::Dead,
    {
        self.height = height;
        self.cells = dead_cells(self.width * self.height);
    }

    /// Flip the one cell at `(row, col)` between Dead and Alive, in place.
    pub fn toggle_cell(&mut self, row: usize, col: usize)
        requires
            old(self).wf(),
            row < old(self).spec_height(),
            col < old(self).spec_width(),
        ensures
            final(self).wf(),
            final(self).spec_width() == old(self).spec_width(),
            final(self).spec_height() == old(self).spec_height(),
            final(self).grid() == old(self).grid().update(
                spec_index(old(self).spec_width(), row as int, col as int),
                flip_cell(cell_at(old(self).grid(), old(self).spec_width(), row as int, col as int)),
            ),
    {
        let i = self.get_index(row, col);
        self.cells[i].toggle();
    }

    /// Read-only view of the full cell buffer, row-major.
    pub fn borrow_cells(&self) -> (cells: &[Cell])
        ensures
            cells@ == self.grid(),
    {
        self.cells.as_slice()
    }

    /// Set every listed `(row, col)` coordinate to Alive, leaving every
    /// unlisted cell as it was. Repeated coordinates are idempotent.
    pub fn set_cells(&mut self, cells: &[(usize, usize)])
        requires
            old(self).wf(),
            forall|k: int|
                0 <= k < cells@.len() ==> (#[trigger] cells@[k]).0 < old(self).spec_height()
                    && cells@[k].1 < old(self).spec_width(),
        ensures
            final(self).wf(),
            final(self).spec_width() == old(self).spec_width(),
            final(self).spec_height() == old(self).spec_height(),
            final(self).grid().len() == old(self).grid().len(),
            forall|k: int|
                0 <= k < cells@.len() ==> cell_at(
                    final(self).grid(),
                    old(self).spec_width(),
                    (#[trigger] cells@[k]).0 as int,
                    cells@[k].1 as int,
                ) == Cell::Alive,
            forall|r: int, c: int|
                0 <= r < old(self).spec_height() && 0 <= c < old(self).spec_width() && !listed(
                    cells@,
                    r,
                    c,
                ) ==> cell_at(final(self).grid(), old(self).spec_width(), r, c) == cell_at(
                    old(self).grid(),
                    old(self).spec_width(),
                    r,
                    c,
                ),
    {
        let ghost orig = *self;
        let ghost w = orig.spec_width();
        let ghost h = orig.spec_height();
        let mut j: usize = 0;
        while j < cells.len()
            invariant
                self.wf(),
                orig.wf(),
                w == orig.spec_width(),
                h == orig.spec_height(),
                self.spec_width() == w,
                self.spec_height() == h,
                self.grid().len() == orig.grid().len(),
                j <= cells@.len(),
                forall|k: int|
                    0 <= k < cells@.len() ==> (#[trigger] cells@[k]).0 < h && cells@[k].1 < w,
                forall|k: int|
                    0 <= k < j ==> cell_at(
                        self.grid(),
                        w,
                        (#[trigger] cells@[k]).0 as int,
                        cells@[k].1 as int,
                    ) == Cell::Alive,
                forall|r: int, c: int|
                    0 <= r < h && 0 <= c < w && !listed(cells@.subrange(0, j as int), r, c)
                        ==> cell_at(self.grid(), w, r, c) == cell_at(orig.grid(), w, r, c),
            decreases cells@.len() - j,
        {
            let (row, col) = cells[j];
            let i = self.get_index(row, col);
            let ghost before = self.grid();
            self.cells[i] = Cell::Alive;
            proof {
                lemma_write_cell(before, self.grid(), w, h, row as int, col as int, Cell::Alive);
                assert forall|k: int| 0 <= k < j + 1 implies cell_at(
                    self.grid(),
                    w,
                    (#[trigger] cells@[k]).0 as int,
                    cells@[k].1 as int,
                ) == Cell::Alive by {
                    if k < j && (cells@[k].0 as int != row || cells@[k].1 as int != col) {
                        assert(cell_at(before, w, cells@[k].0 as int, cells@[k].1 as int)
                            == Cell::Alive);
                    }
                }
                assert forall|r: int, c: int|
                    0 <= r < h && 0 <= c < w && !listed(cells@.subrange(0, j + 1), r, c) implies
                    cell_at(self.grid(), w, r, c) == cell_at(orig.grid(), w, r, c) by {
                    assert(cells@.subrange(0, j + 1)[j as int] == cells@[j as int]);
                    assert(r != row || c != col);
                    if listed(cells@.subrange(0, j as int), r, c) {
                        let k = choose|k: int|
                            0 <= k < j && (#[trigger] cells@.subrange(0, j as int)[k]).0 as int
                                == r && cells@.subrange(0, j as int)[k].1 as int == c;
                        assert(cells@.subrange(0, j + 1)[k] == cells@[k]);
                        assert(listed(cells@.subrange(0, j + 1), r, c));
                    }
                    assert(cell_at(self.grid(), w, r, c) == cell_at(before, w, r, c));
                }
            }
            j = j + 1;
        }
        proof {
            assert(cells@.subrange(0, cells@.len() as int) =~= cells@);
        }
    }
}

} // verus!
