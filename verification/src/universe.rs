//! The grid ("universe"): a row-major lattice of cells on a torus, with
//! construction, queries, mutation and generation advance.

use vstd::prelude::*;

use crate::cell::{cell_value, next_cell, toggled, transition, Cell};
use vstd::arithmetic::div_mod::{
    lemma_fundamental_div_mod, lemma_fundamental_div_mod_converse, lemma_mod_pos_bound,
    lemma_small_mod,
};

verus! {

/// The faults an operation of the grid can signal.
///
/// `OutOfBounds` is the bounds fault of a direct-addressing operation whose
/// row or column lies outside the grid; `ZeroDimension` is the
/// invalid-configuration fault of a resize to a zero-sized dimension.
#[derive(Clone, Copy, Debug, PartialEq, Eq, Structural)]
pub enum GridError {
    OutOfBounds,
    ZeroDimension,
}

/// The grid: `width * height` cells in row-major order
/// (index = `row * width + column`).
pub struct Universe {
    pub width: u32,
    pub height: u32,
    pub cells: Vec<Cell>,
}

impl Universe {
    /// Well-formedness: both dimensions are at least 1 and the cell buffer
    /// holds exactly `width * height` cells.
    pub open spec fn wf(self) -> bool {
        &&& self.width >= 1
        &&& self.height >= 1
        &&& self.cells@.len() == (self.width as int) * (self.height as int)
    }

    /// The grid's width, as a mathematical integer.
    pub open spec fn spec_width(self) -> int {
        self.width as int
    }

    /// The grid's height, as a mathematical integer.
    pub open spec fn spec_height(self) -> int {
        self.height as int
    }

    /// The cell buffer, as a sequence.
    pub open spec fn spec_cells(self) -> Seq<Cell> {
        self.cells@
    }

    /// The row-major buffer index of position `(row, col)`.
    pub open spec fn spec_index(self, row: int, col: int) -> int {
        row * self.spec_width() + col
    }

    /// Whether `(row, col)` addresses a cell of the grid directly
    /// (direct addressing never wraps).
    pub open spec fn in_bounds(self, row: int, col: int) -> bool {
        0 <= row < self.spec_height() && 0 <= col < self.spec_width()
    }

    /// The cell at position `(row, col)`.
    pub open spec fn spec_cell(self, row: int, col: int) -> Cell {
        self.spec_cells()[self.spec_index(row, col)]
    }

    /// The number of live cells among the eight toroidally wrapped neighbors
    /// of `(row, col)`; the cell itself is excluded. Neighbor lookups wrap:
    /// the offsets `height - 1` and `width - 1` act as `-1` under the modulus.
    #[verifier::opaque]
    pub open spec fn live_neighbors(self, row: int, col: int) -> int {
        let h = self.spec_height();
        let w = self.spec_width();
        cell_value(self.spec_cell((row + (h - 1)) % h, (col + (w - 1)) % w)) + cell_value(
            self.spec_cell((row + (h - 1)) % h, col),
        ) + cell_value(self.spec_cell((row + (h - 1)) % h, (col + 1) % w)) + cell_value(
            self.spec_cell(row, (col + (w - 1)) % w),
        ) + cell_value(self.spec_cell(row, (col + 1) % w)) + cell_value(
            self.spec_cell((row + 1) % h, (col + (w - 1)) % w),
        ) + cell_value(self.spec_cell((row + 1) % h, col)) + cell_value(
            self.spec_cell((row + 1) % h, (col + 1) % w),
        )
    }

    /// The eight toroidally wrapped neighbor positions of the in-bounds cell
    /// `(row, col)`, in the order the count visits them.
    pub open spec fn neighbor_positions(self, row: int, col: int) -> Seq<(int, int)> {
        let h = self.spec_height();
        let w = self.spec_width();
        seq![
            ((row + (h - 1)) % h, (col + (w - 1)) % w),
            ((row + (h - 1)) % h, col),
            ((row + (h - 1)) % h, (col + 1) % w),
            (row, (col + (w - 1)) % w),
            (row, (col + 1) % w),
            ((row + 1) % h, (col + (w - 1)) % w),
            ((row + 1) % h, col),
            ((row + 1) % h, (col + 1) % w),
        ]
    }

    /// The live-neighbor count of an in-bounds cell, as executable code.
    pub fn live_neighbor_count(&self, row: u32, column: u32) -> (n: u8)
        requires
            self.wf(),
            self.in_bounds(row as int, column as int),
        ensures
            n as int == self.live_neighbors(row as int, column as int),
            n <= 8,
    {
        proof {
            reveal(Universe::live_neighbors);
        }
        let up = wrap_coord(row, self.height - 1, self.height);
        let down = wrap_coord(row, 1, self.height);
        let left = wrap_coord(column, self.width - 1, self.width);
        let right = wrap_coord(column, 1, self.width);
        let mut n: u8 = 0;
        n = n + self.cell_value_at(up, left);
        n = n + self.cell_value_at(up, column);
        n = n + self.cell_value_at(up, right);
        n = n + self.cell_value_at(row, left);
        n = n + self.cell_value_at(row, right);
        n = n + self.cell_value_at(down, left);
        n = n + self.cell_value_at(down, column);
        n = n + self.cell_value_at(down, right);
        n
    }

    /// The cell the default construction places at linear index `i`:
    /// alive exactly when `i` is divisible by 3 or by 7.
    pub open spec fn seed_cell(i: int) -> Cell {
        if i % 3 == 0 || i % 7 == 0 {
            Cell::Alive
        } else {
            Cell::Dead
        }
    }

    /// Whether this grid is in the state the default construction produces:
    /// the default 128-by-128 size, seeded cell by cell from the linear index.
    pub open spec fn is_default_start(self) -> bool {
        &&& self.wf()
        &&& self.spec_width() == 128
        &&& self.spec_height() == 128
        &&& forall|i: int|
            0 <= i < self.spec_cells().len() ==> #[trigger] self.spec_cells()[i]
                == Self::seed_cell(i)
    }

    /// Build the default grid: 128 by 128, each cell seeded deterministically
    /// from its linear index.
    pub fn new() -> (u: Universe)
        ensures
            u.is_default_start(),
    {
        let width: u32 = 128;
        let height: u32 = 128;
        let total: usize = 16384;
        let mut cells: Vec<Cell> = Vec::new();
        let mut i: usize = 0;
        while i < total
            invariant
                i <= total,
                total == 16384,
                cells@.len() == i,
                forall|j: int| 0 <= j < i ==> cells@[j] == Self::seed_cell(j),
            decreases total - i,
        {
            if i % 3 == 0 || i % 7 == 0 {
                cells.push(Cell::Alive);
            } else {
                cells.push(Cell::Dead);
            }
            i = i + 1;
        }
        Universe { width, height, cells }
    }

    /// The default construction is deterministic: any two grids in the state
    /// it produces have the same dimensions and identical cell buffers.
    pub proof fn lemma_default_start_deterministic(a: Universe, b: Universe)
        requires
            a.is_default_start(),
            b.is_default_start(),
        ensures
            a.spec_width() == b.spec_width(),
            a.spec_height() == b.spec_height(),
            a.spec_cells() == b.spec_cells(),
    {
        assert(a.spec_cells().len() == b.spec_cells().len());
        assert forall|i: int| 0 <= i < a.spec_cells().len() implies a.spec_cells()[i]
            == b.spec_cells()[i] by {
            assert(a.spec_cells()[i] == Self::seed_cell(i));
            assert(b.spec_cells()[i] == Self::seed_cell(i));
        }
        assert(a.spec_cells() =~= b.spec_cells());
    }

    /// The row-major buffer index of an in-bounds position, as executable
    /// code; always a valid index into the cell buffer.
    fn get_index(&self, row: u32, column: u32) -> (idx: usize)
        requires
            self.wf(),
            self.in_bounds(row as int, column as int),
        ensures
            idx == self.spec_index(row as int, column as int),
            idx < self.spec_cells().len(),
    {
        proof {
            lemma_row_major_bound(
                row as int,
                column as int,
                self.spec_width(),
                self.spec_height(),
            );
            assert(self.cells.len() <= usize::MAX);
        }
        (row as usize) * (self.width as usize) + (column as usize)
    }

    /// The numeric weight of the cell at an in-bounds position.
    fn cell_value_at(&self, row: u32, column: u32) -> (v: u8)
        requires
            self.wf(),
            self.in_bounds(row as int, column as int),
        ensures
            v as int == cell_value(self.spec_cell(row as int, column as int)),
            v <= 1,
    {
        let idx = self.get_index(row, column);
        self.cells[idx].value()
    }

    /// The cell at `(row, column)`, or the bounds fault when the position
    /// lies outside the grid.
    pub fn cell_at(&self, row: u32, column: u32) -> (result: Result<Cell, GridError>)
        requires
            self.wf(),
        ensures
            self.in_bounds(row as int, column as int) ==> result == Ok::<Cell, GridError>(
                self.spec_cell(row as int, column as int),
            ),
            !self.in_bounds(row as int, column as int) ==> result == Err::<Cell, GridError>(
                GridError::OutOfBounds,
            ),
    {
        if row >= self.height || column >= self.width {
            return Err(GridError::OutOfBounds);
        }
        let idx = self.get_index(row, column);
        Ok(self.cells[idx])
    }

    /// A read-only view of the whole cell buffer, row-major.
    pub fn get_cells_internal(&self) -> (cells: &[Cell])
        ensures
            cells@ == self.spec_cells(),
    {
        self.cells.as_slice()
    }

    /// A borrowed, contiguous, row-major snapshot of the cell buffer for
    /// zero-copy reads; valid until the next mutating call.
    pub fn get_cells(&self) -> (cells: &[Cell])
        ensures
            cells@ == self.spec_cells(),
    {
        self.cells.as_slice()
    }

    /// Flip the cell at `(row, column)` between dead and alive, touching no
    /// other cell; outside the grid, signal the bounds fault and leave the
    /// grid unchanged.
    pub fn toggle_cell(&mut self, row: u32, column: u32) -> (result: Result<(), GridError>)
        requires
            old(self).wf(),
        ensures
            final(self).wf(),
            final(self).spec_width() == old(self).spec_width(),
            final(self).spec_height() == old(self).spec_height(),
            old(self).in_bounds(row as int, column as int) ==> {
                &&& result == Ok::<(), GridError>(())
                &&& final(self).spec_cells() == old(self).spec_cells().update(
                    old(self).spec_index(row as int, column as int),
                    toggled(old(self).spec_cell(row as int, column as int)),
                )
            },
            !old(self).in_bounds(row as int, column as int) ==> {
                &&& result == Err::<(), GridError>(GridError::OutOfBounds)
                &&& *final(self) == *old(self)
            },
    {
        if row >= self.height || column >= self.width {
            return Err(GridError::OutOfBounds);
        }
        let idx = self.get_index(row, column);
        let mut cell = self.cells[idx];
        cell.toggle();
        self.cells.set(idx, cell);
        Ok(())
    }

    /// Set the width, discarding all prior cell state: afterwards every cell
    /// of the `width * height` buffer is dead. A zero width is rejected as an
    /// invalid configuration and leaves the grid unchanged.
    pub fn set_width(&mut self, width: u32) -> (result: Result<(), GridError>)
        requires
            old(self).wf(),
            width as int * old(self).spec_height() <= usize::MAX as int,
        ensures
            final(self).wf(),
            width == 0 ==> {
                &&& result == Err::<(), GridError>(GridError::ZeroDimension)
                &&& *final(self) == *old(self)
            },
            width >= 1 ==> {
                &&& result == Ok::<(), GridError>(())
                &&& final(self).spec_width() == width as int
                &&& final(self).spec_height() == old(self).spec_height()
                &&& forall|i: int|
                    0 <= i < final(self).spec_cells().len() ==> final(self).spec_cells()[i]
                        is Dead
            },
    {
        if width == 0 {
            return Err(GridError::ZeroDimension);
        }
        let total: usize = (width as usize) * (self.height as usize);
        self.width = width;
        self.cells = dead_cells(total);
        Ok(())
    }

    /// Set the height, discarding all prior cell state: afterwards every cell
    /// of the `width * height` buffer is dead. A zero height is rejected as
    /// an invalid configuration and leaves the grid unchanged.
    pub fn set_height(&mut self, height: u32) -> (result: Result<(), GridError>)
        requires
            old(self).wf(),
            old(self).spec_width() * height as int <= usize::MAX as int,
        ensures
            final(self).wf(),
            height == 0 ==> {
                &&& result == Err::<(), GridError>(GridError::ZeroDimension)
                &&& *final(self) == *old(self)
            },
            height >= 1 ==> {
                &&& result == Ok::<(), GridError>(())
                &&& final(self).spec_width() == old(self).spec_width()
                &&& final(self).spec_height() == height as int
                &&& forall|i: int|
                    0 <= i < final(self).spec_cells().len() ==> final(self).spec_cells()[i]
                        is Dead
            },
    {
        if height == 0 {
            return Err(GridError::ZeroDimension);
        }
        let total: usize = (self.width as usize) * (height as usize);
        self.height = height;
        self.cells = dead_cells(total);
        Ok(())
    }

    /// Whether every coordinate pair of `coords` addresses a cell of the grid.
    pub open spec fn all_in_bounds(self, coords: Seq<(u32, u32)>) -> bool {
        forall|k: int|
            0 <= k < coords.len() ==> self.in_bounds(
                (#[trigger] coords[k]).0 as int,
                coords[k].1 as int,
            )
    }

    /// Set every cell named by `coords` (as `(row, column)` pairs) to alive,
    /// leaving all other cells as they were; duplicates are harmless. If any
    /// pair lies outside the grid, signal the bounds fault and change
    /// nothing.
    pub fn set_cells_internal(&mut self, coords: &[(u32, u32)]) -> (result: Result<
        (),
        GridError,
    >)
        requires
            old(self).wf(),
        ensures
            final(self).wf(),
            final(self).spec_width() == old(self).spec_width(),
            final(self).spec_height() == old(self).spec_height(),
            old(self).all_in_bounds(coords@) ==> {
                &&& result == Ok::<(), GridError>(())
                &&& final(self).spec_cells() == batch_cells(
                    old(self).spec_cells(),
                    coords@,
                    old(self).spec_width(),
                )
            },
            !old(self).all_in_bounds(coords@) ==> {
                &&& result == Err::<(), GridError>(GridError::OutOfBounds)
                &&& *final(self) == *old(self)
            },
    {
        let ghost orig = *self;
        let mut k: usize = 0;
        while k < coords.len()
            invariant
                *self == orig,
                orig == *old(self),
                orig.wf(),
                k <= coords@.len(),
                forall|j: int|
                    0 <= j < k ==> self.in_bounds(
                        (#[trigger] coords@[j]).0 as int,
                        coords@[j].1 as int,
                    ),
            decreases coords@.len() - k,
        {
            let (row, column) = coords[k];
            if row >= self.height || column >= self.width {
                return Err(GridError::OutOfBounds);
            }
            k = k + 1;
        }
        let mut k: usize = 0;
        while k < coords.len()
            invariant
                self.wf(),
                self.spec_width() == orig.spec_width(),
                self.spec_height() == orig.spec_height(),
                orig == *old(self),
                orig.wf(),
                orig.all_in_bounds(coords@),
                k <= coords@.len(),
                self.spec_cells() == batch_cells(
                    orig.spec_cells(),
                    coords@.take(k as int),
                    orig.spec_width(),
                ),
            decreases coords@.len() - k,
        {
            let (row, column) = coords[k];
            let idx = self.get_index(row, column);
            self.cells.set(idx, Cell::Alive);
            proof {
                lemma_batch_cells_step(orig.spec_cells(), coords@, k as int, orig.spec_width());
            }
            k = k + 1;
        }
        proof {
            assert(coords@.take(coords@.len() as int) =~= coords@);
        }
        Ok(())
    }

    /// Advance the grid one generation: every cell steps to the state the
    /// transition rule gives it from its current state and its live-neighbor
    /// count, all counts taken over the same full snapshot of the current
    /// generation.
    #[verifier::rlimit(100)]
    pub fn tick(&mut self)
        requires
            old(self).wf(),
        ensures
            final(self).wf(),
            final(self).spec_width() == old(self).spec_width(),
            final(self).spec_height() == old(self).spec_height(),
            forall|r: int, c: int|
                old(self).in_bounds(r, c) ==> final(self).spec_cell(r, c) == next_cell(
                    old(self).spec_cell(r, c),
                    old(self).live_neighbors(r, c),
                ),
    {
        let ghost orig = *self;
        let mut next: Vec<Cell> = Vec::new();
        let mut row: u32 = 0;
        while row < self.height
            invariant
                *self == orig,
                orig == *old(self),
                orig.wf(),
                row as int <= orig.spec_height(),
                next@.len() == row as int * orig.spec_width(),
                forall|r: int, c: int|
                    orig.in_bounds(r, c) && #[trigger] orig.spec_index(r, c) < next@.len()
                        ==> next@[orig.spec_index(r, c)] == next_cell(
                        orig.spec_cell(r, c),
                        orig.live_neighbors(r, c),
                    ),
            decreases orig.spec_height() - row as int,
        {
            let mut col: u32 = 0;
            while col < self.width
                invariant
                    *self == orig,
                    orig == *old(self),
                    orig.wf(),
                    (row as int) < orig.spec_height(),
                    col as int <= orig.spec_width(),
                    next@.len() == row as int * orig.spec_width() + col as int,
                    forall|r: int, c: int|
                        orig.in_bounds(r, c) && #[trigger] orig.spec_index(r, c) < next@.len()
                            ==> next@[orig.spec_index(r, c)] == next_cell(
                            orig.spec_cell(r, c),
                            orig.live_neighbors(r, c),
                        ),
                decreases orig.spec_width() - col as int,
            {
                let idx = self.get_index(row, col);
                let current = self.cells[idx];
                let n = self.live_neighbor_count(row, col);
                let next_state = transition(current, n);
                next.push(next_state);
                proof {
                    assert(orig.spec_index(row as int, col as int) == next@.len() - 1);
                    assert forall|r: int, c: int|
                        orig.in_bounds(r, c) && #[trigger] orig.spec_index(r, c)
                            < next@.len() implies next@[orig.spec_index(r, c)] == next_cell(
                        orig.spec_cell(r, c),
                        orig.live_neighbors(r, c),
                    ) by {
                        if orig.spec_index(r, c) == next@.len() - 1 {
                            lemma_row_major_injective(
                                r,
                                c,
                                row as int,
                                col as int,
                                orig.spec_width(),
                            );
                        }
                    }
                }
                col = col + 1;
            }
            proof {
                assert((row as int + 1) * orig.spec_width() == row as int * orig.spec_width()
                    + orig.spec_width()) by (nonlinear_arith);
            }
            row = row + 1;
        }
        proof {
            assert(orig.spec_height() * orig.spec_width() == orig.spec_width()
                * orig.spec_height()) by (nonlinear_arith);
        }
        self.cells = next;
        proof {
            assert forall|r: int, c: int| orig.in_bounds(r, c) implies self.spec_cell(r, c)
                == next_cell(orig.spec_cell(r, c), orig.live_neighbors(r, c)) by {
                lemma_row_major_bound(r, c, orig.spec_width(), orig.spec_height());
            }
        }
    }

    /// The index in the rendered text at which the glyph of `(row, col)`
    /// stands: each rendered row is `width` glyphs and one line break.
    pub open spec fn render_index(self, row: int, col: int) -> int {
        row * (self.spec_width() + 1) + col
    }

    /// What the rendered text of the grid is: `height` lines in
    /// top-to-bottom row order, each holding the `width` glyphs of one row
    /// and then a line break.
    pub open spec fn render_post(self, s: Seq<char>) -> bool {
        &&& s.len() == self.spec_height() * (self.spec_width() + 1)
        &&& forall|r: int, c: int|
            self.in_bounds(r, c) ==> s[#[trigger] self.render_index(r, c)] == glyph(
                self.spec_cell(r, c),
            )
        &&& forall|r: int|
            0 <= r < self.spec_height() ==> s[#[trigger] self.render_index(
                r,
                self.spec_width(),
            )] == '\n'
    }

    /// The deterministic textual snapshot of the grid.
    #[verifier::rlimit(100)]
    pub fn render(&self) -> (text: String)
        requires
            self.wf(),
        ensures
            self.render_post(text@),
    {
        let ghost w = self.spec_width();
        let ghost h = self.spec_height();
        let mut text = String::new();
        let mut row: u32 = 0;
        while row < self.height
            invariant
                self.wf(),
                w == self.spec_width(),
                h == self.spec_height(),
                row as int <= h,
                text@.len() == row as int * (w + 1),
                forall|r: int, c: int|
                    self.in_bounds(r, c) && #[trigger] self.render_index(r, c) < text@.len()
                        ==> text@[self.render_index(r, c)] == glyph(self.spec_cell(r, c)),
                forall|r: int|
                    0 <= r < row ==> text@[#[trigger] self.render_index(r, w)] == '\n',
            decreases h - row as int,
        {
            let mut col: u32 = 0;
            while col < self.width
                invariant
                    self.wf(),
                    w == self.spec_width(),
                    h == self.spec_height(),
                    (row as int) < h,
                    col as int <= w,
                    text@.len() == row as int * (w + 1) + col as int,
                    forall|r: int, c: int|
                        self.in_bounds(r, c) && #[trigger] self.render_index(r, c)
                            < text@.len() ==> text@[self.render_index(r, c)] == glyph(
                            self.spec_cell(r, c),
                        ),
                    forall|r: int|
                        0 <= r < row ==> text@[#[trigger] self.render_index(r, w)] == '\n',
                decreases w - col as int,
            {
                let idx = self.get_index(row, col);
                let cell = self.cells[idx];
                match cell {
                    Cell::Alive => text.append("\u{25fc}"),
                    Cell::Dead => text.append("\u{25fb}"),
                }
                proof {
                    reveal_strlit("\u{25fc}");
                    reveal_strlit("\u{25fb}");
                    assert(self.render_index(row as int, col as int) == text@.len() - 1);
                    assert forall|r: int, c: int|
                        self.in_bounds(r, c) && #[trigger] self.render_index(r, c)
                            < text@.len() implies text@[self.render_index(r, c)] == glyph(
                        self.spec_cell(r, c),
                    ) by {
                        if self.render_index(r, c) == text@.len() - 1 {
                            lemma_row_major_injective(r, c, row as int, col as int, w + 1);
                        }
                    }
                    assert forall|r: int| 0 <= r < row implies text@[#[trigger] self.render_index(
                        r,
                        w,
                    )] == '\n' by {
                        lemma_row_major_mono(r, w, row as int, col as int, w + 1);
                    }
                }
                col = col + 1;
            }
            text.append("\n");
            proof {
                reveal_strlit("\n");
                assert(self.render_index(row as int, w) == text@.len() - 1);
                assert forall|r: int, c: int|
                    self.in_bounds(r, c) && #[trigger] self.render_index(r, c)
                        < text@.len() implies text@[self.render_index(r, c)] == glyph(
                    self.spec_cell(r, c),
                ) by {
                    if self.render_index(r, c) == text@.len() - 1 {
                        lemma_row_major_injective(r, c, row as int, w, w + 1);
                    }
                }
                assert forall|r: int| 0 <= r < row as int + 1 implies text@[
                    #[trigger] self.render_index(r, w)] == '\n' by {
                    if r < row as int {
                        lemma_row_major_mono(r, w, row as int, w, w + 1);
                    }
                }
                assert((row as int + 1) * (w + 1) == row as int * (w + 1) + (w + 1))
                    by (nonlinear_arith);
            }
            row = row + 1;
        }
        proof {
            assert(h * (w + 1) == (w + 1) * h) by (nonlinear_arith);
            assert forall|r: int, c: int| self.in_bounds(r, c) implies text@[
                #[trigger] self.render_index(r, c)] == glyph(self.spec_cell(r, c)) by {
                lemma_row_major_bound(r, c, w + 1, h);
            }
            assert forall|r: int| 0 <= r < h implies text@[#[trigger] self.render_index(r, w)]
                == '\n' by {
                lemma_row_major_bound(r, w, w + 1, h);
            }
        }
        text
    }

    /// Rendering is deterministic: the grid's state fixes the rendered text
    /// completely, so two renderings of the same state are identical.
    pub proof fn lemma_render_deterministic(u: Universe, s1: Seq<char>, s2: Seq<char>)
        requires
            u.wf(),
            u.render_post(s1),
            u.render_post(s2),
        ensures
            s1 == s2,
    {
        let w = u.spec_width();
        let h = u.spec_height();
        assert forall|i: int| 0 <= i < s1.len() implies s1[i] == s2[i] by {
            let r = i / (w + 1);
            let c = i % (w + 1);
            lemma_fundamental_div_mod(i, w + 1);
            lemma_mod_pos_bound(i, w + 1);
            assert(i == r * (w + 1) + c) by (nonlinear_arith)
                requires
                    i == (w + 1) * (i / (w + 1)) + i % (w + 1),
                    r == i / (w + 1),
                    c == i % (w + 1),
            ;
            assert(r >= 0) by (nonlinear_arith)
                requires
                    i == r * (w + 1) + c,
                    0 <= c < w + 1,
                    0 <= i,
                    w >= 1,
            ;
            assert(r < h) by (nonlinear_arith)
                requires
                    i == r * (w + 1) + c,
                    0 <= c < w + 1,
                    i < h * (w + 1),
                    0 <= r,
            ;
            assert(i == u.render_index(r, c));
            if c < w {
                assert(s1[u.render_index(r, c)] == glyph(u.spec_cell(r, c)));
                assert(s2[u.render_index(r, c)] == glyph(u.spec_cell(r, c)));
            } else {
                assert(c == w);
                assert(s1[u.render_index(r, w)] == '\n');
                assert(s2[u.render_index(r, w)] == '\n');
            }
        }
        assert(s1 =~= s2);
    }

    /// The grid's width.
    pub fn get_width(&self) -> (w: u32)
        ensures
            w as int == self.spec_width(),
    {
        self.width
    }

    /// The grid's height.
    pub fn get_height(&self) -> (h: u32)
        ensures
            h as int == self.spec_height(),
    {
        self.height
    }
}

/// Whether some pair of `coords` names the cell with row-major index `i` on
/// a grid of the given width.
pub open spec fn covered(coords: Seq<(u32, u32)>, i: int, width: int) -> bool
    decreases coords.len(),
{
    if coords.len() == 0 {
        false
    } else {
        i == coords.last().0 * width + coords.last().1 || covered(coords.drop_last(), i, width)
    }
}

/// The cell buffer after a batch set: every cell named by `coords` is alive,
/// every other cell keeps its prior state.
pub open spec fn batch_cells(cells: Seq<Cell>, coords: Seq<(u32, u32)>, width: int) -> Seq<Cell> {
    Seq::new(
        cells.len(),
        |i: int|
            if covered(coords, i, width) {
                Cell::Alive
            } else {
                cells[i]
            },
    )
}

/// Applying one more pair of a batch equals updating the cell it names.
proof fn lemma_batch_cells_step(cells: Seq<Cell>, coords: Seq<(u32, u32)>, k: int, width: int)
    requires
        0 <= k < coords.len(),
        0 <= coords[k].0 * width + coords[k].1 < cells.len(),
    ensures
        batch_cells(cells, coords.take(k + 1), width) == batch_cells(
            cells,
            coords.take(k),
            width,
        ).update(coords[k].0 * width + coords[k].1, Cell::Alive),
{
    let prefix = coords.take(k);
    let step = coords.take(k + 1);
    let idx = coords[k].0 * width + coords[k].1;
    assert(step.drop_last() =~= prefix);
    assert(step.last() == coords[k]);
    assert forall|i: int| 0 <= i < cells.len() implies batch_cells(cells, step, width)[i]
        == batch_cells(cells, prefix, width).update(idx, Cell::Alive)[i] by {
        assert(covered(coords.take(k + 1), i, width) == (i == idx || covered(
            prefix,
            i,
            width,
        )));
    }
    assert(batch_cells(cells, step, width) =~= batch_cells(cells, prefix, width).update(
        idx,
        Cell::Alive,
    ));
}

/// Setting the same batch of cells alive twice yields the same cell buffer
/// as setting it once.
pub proof fn lemma_batch_idempotent(cells: Seq<Cell>, coords: Seq<(u32, u32)>, width: int)
    ensures
        batch_cells(batch_cells(cells, coords, width), coords, width) == batch_cells(
            cells,
            coords,
            width,
        ),
{
    assert(batch_cells(batch_cells(cells, coords, width), coords, width) =~= batch_cells(
        cells,
        coords,
        width,
    ));
}

/// A buffer of `total` dead cells.
fn dead_cells(total: usize) -> (cells: Vec<Cell>)
    ensures
        cells@.len() == total,
        forall|i: int| 0 <= i < total ==> cells@[i] is Dead,
{
    let mut cells: Vec<Cell> = Vec::new();
    let mut i: usize = 0;
    while i < total
        invariant
            i <= total,
            cells@.len() == i,
            forall|j: int| 0 <= j < i ==> cells@[j] is Dead,
        decreases total - i,
    {
        cells.push(Cell::Dead);
        i = i + 1;
    }
    cells
}

/// The coordinate `(x + delta) % m`, computed without overflow.
fn wrap_coord(x: u32, delta: u32, m: u32) -> (r: u32)
    requires
        m >= 1,
        x < m,
        delta <= m,
    ensures
        r as int == (x as int + delta as int) % (m as int),
        r < m,
{
    (((x as u64) + (delta as u64)) % (m as u64)) as u32
}

/// Toroidal neighbor counting visits eight pairwise-distinct positions at the
/// corner `(0, 0)` and likewise at the corner `(height - 1, width - 1)`, for
/// any grid whose dimensions are both at least 3.
pub proof fn lemma_corner_neighbors_distinct(u: Universe)
    requires
        u.wf(),
        u.spec_width() >= 3,
        u.spec_height() >= 3,
    ensures
        u.neighbor_positions(0, 0).len() == 8,
        u.neighbor_positions(u.spec_height() - 1, u.spec_width() - 1).len() == 8,
        u.neighbor_positions(0, 0).no_duplicates(),
        u.neighbor_positions(u.spec_height() - 1, u.spec_width() - 1).no_duplicates(),
{
    let h = u.spec_height();
    let w = u.spec_width();
    lemma_small_mod((h - 1) as nat, h as nat);
    lemma_small_mod((w - 1) as nat, w as nat);
    lemma_small_mod(1nat, h as nat);
    lemma_small_mod(1nat, w as nat);
    lemma_fundamental_div_mod_converse(2 * h - 2, h, 1, h - 2);
    lemma_fundamental_div_mod_converse(2 * w - 2, w, 1, w - 2);
    lemma_fundamental_div_mod_converse(h, h, 1, 0);
    lemma_fundamental_div_mod_converse(w, w, 1, 0);
    let origin = u.neighbor_positions(0, 0);
    assert(origin[0] == (h - 1, w - 1));
    assert(origin[1] == (h - 1, 0int));
    assert(origin[2] == (h - 1, 1int));
    assert(origin[3] == (0int, w - 1));
    assert(origin[4] == (0int, 1int));
    assert(origin[5] == (1int, w - 1));
    assert(origin[6] == (1int, 0int));
    assert(origin[7] == (1int, 1int));
    let far = u.neighbor_positions(h - 1, w - 1);
    assert(far[0] == (h - 2, w - 2));
    assert(far[1] == (h - 2, w - 1));
    assert(far[2] == (h - 2, 0int));
    assert(far[3] == (h - 1, w - 2));
    assert(far[4] == (h - 1, 0int));
    assert(far[5] == (0int, w - 2));
    assert(far[6] == (0int, w - 1));
    assert(far[7] == (0int, 0int));
    assert forall|i: int, j: int|
        0 <= i < origin.len() && 0 <= j < origin.len() && i != j implies origin[i]
        != origin[j] by {}
    assert forall|i: int, j: int|
        0 <= i < far.len() && 0 <= j < far.len() && i != j implies far[i] != far[j] by {}
}

/// The glyph the textual rendering uses for a cell.
pub open spec fn glyph(c: Cell) -> char {
    if c is Alive {
        '\u{25fc}'
    } else {
        '\u{25fb}'
    }
}

/// Of two in-bounds positions, the one on the earlier row has the smaller
/// row-major index.
proof fn lemma_row_major_mono(r1: int, c1: int, r2: int, c2: int, width: int)
    by (nonlinear_arith)
    requires
        0 <= c1 < width,
        0 <= c2 < width,
        0 <= r1 < r2,
    ensures
        r1 * width + c1 < r2 * width + c2,
{
}

/// A row-major index of an in-bounds position lies below `height * width`.
proof fn lemma_row_major_bound(row: int, col: int, width: int, height: int)
    by (nonlinear_arith)
    requires
        0 <= row < height,
        0 <= col < width,
    ensures
        0 <= row * width + col < height * width,
        0 <= row * width + col < width * height,
{
}

/// Row-major indexing is injective over in-bounds positions.
proof fn lemma_row_major_injective(r1: int, c1: int, r2: int, c2: int, width: int)
    by (nonlinear_arith)
    requires
        0 <= c1 < width,
        0 <= c2 < width,
        0 <= r1,
        0 <= r2,
        r1 * width + c1 == r2 * width + c2,
    ensures
        r1 == r2,
        c1 == c2,
{
}

} // verus!
