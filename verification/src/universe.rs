//! The grid engine: a toroidal Game of Life universe with a double-buffered
//! packed bit grid. The primary buffer holds the working generation; the
//! secondary buffer holds the generation most recently computed by `tick`,
//! which is the one `cells` exports for display.

use crate::bits::{bit_seq, fbs_get, fbs_len, fbs_set, fbs_set_range, fbs_with_capacity};
use crate::model::{
    cell_at, glider_applicable, glider_stamped, idx, lemma_flat_range_decode, lemma_idx_bounds,
    lemma_idx_decomposition, lemma_index_split, live_neighbors, render_spec, step, toggled,
    wrap_dec, wrap_inc,
};
use crate::prng::Prng;
use fixedbitset::FixedBitSet;
use vstd::prelude::*;
use vstd::string::StringExecFns;

verus! {

/// The ways an engine call can fail: constructing a grid with a zero
/// dimension, or addressing a single cell outside the grid.
#[derive(Clone, Copy, Debug, PartialEq, Eq, Structural)]
pub enum GridError {
    InvalidDimensions,
    IndexOutOfRange,
}

/// The abstract state of a universe: its dimensions and the contents of
/// both generation buffers as flat, row-major sequences.
pub ghost struct GridView {
    pub width: int,
    pub height: int,
    pub current: Seq<bool>,
    pub next: Seq<bool>,
}

/// A toroidal Game of Life universe.
pub struct Universe {
    width: u32,
    height: u32,
    cells: FixedBitSet,
    ncells: FixedBitSet,
    rand: Prng,
}

/// Steps a coordinate one unit toward zero, wrapping to `m - 1` at zero.
fn wrap_sub_one(x: u32, m: u32) -> (r: u32)
    requires
        0 < m,
        x < m,
    ensures
        r as int == wrap_dec(x as int, m as int),
        r < m,
{
    if x == 0 {
        m - 1
    } else {
        x - 1
    }
}

/// Steps a coordinate one unit away from zero, wrapping to zero at `m - 1`.
fn wrap_add_one(x: u32, m: u32) -> (r: u32)
    requires
        0 < m,
        x < m,
    ensures
        r as int == wrap_inc(x as int, m as int),
        r < m,
{
    if x + 1 == m {
        0
    } else {
        x + 1
    }
}

impl View for Universe {
    type V = GridView;

    closed spec fn view(&self) -> GridView {
        GridView {
            width: self.width as int,
            height: self.height as int,
            current: bit_seq(self.cells),
            next: bit_seq(self.ncells),
        }
    }
}

impl Universe {
    /// The invariant of a universe: both dimensions are positive, the cell
    /// count fits the index arithmetic, and both buffers hold exactly one
    /// bit per cell.
    pub open spec fn wf(self) -> bool {
        &&& 0 < self@.width
        &&& 0 < self@.height
        &&& self@.width * self@.height <= u32::MAX
        &&& self@.current.len() == self@.width * self@.height
        &&& self@.next.len() == self@.width * self@.height
    }

    /// Creates a universe of the given dimensions, or reports
    /// `InvalidDimensions` exactly when one of them is zero. On success
    /// every cell of the primary buffer is seeded from the random source,
    /// and the secondary buffer is an exact copy of the primary one.
    pub fn new(width: u32, height: u32) -> (r: Result<Universe, GridError>)
        requires
            (width as int) * (height as int) <= u32::MAX,
        ensures
            r is Ok <==> (width > 0 && height > 0),
            r is Err ==> r->Err_0 == GridError::InvalidDimensions,
            r is Ok ==> (r->Ok_0).wf(),
            r is Ok ==> (r->Ok_0)@.width == width as int,
            r is Ok ==> (r->Ok_0)@.height == height as int,
            r is Ok ==> (r->Ok_0)@.next == (r->Ok_0)@.current,
    {
        if width == 0 || height == 0 {
            return Err(GridError::InvalidDimensions);
        }
        let size32: u32 = width * height;
        let size: usize = size32 as usize;
        let mut rand = Prng::seeded(((width as u64) << 32u64) ^ (height as u64));
        let mut cells = fbs_with_capacity(size);
        let mut i: usize = 0;
        while i < size
            invariant
                i <= size,
                bit_seq(cells).len() == size,
            decreases size - i,
        {
            let b = rand.next_bool();
            fbs_set(&mut cells, i, b);
            i += 1;
        }
        let mut ncells = fbs_with_capacity(size);
        let mut i: usize = 0;
        while i < size
            invariant
                i <= size,
                bit_seq(cells).len() == size,
                bit_seq(ncells).len() == size,
                forall|k: int| 0 <= k < i ==> bit_seq(ncells)[k] == bit_seq(cells)[k],
            decreases size - i,
        {
            let b = fbs_get(&cells, i);
            fbs_set(&mut ncells, i, b);
            i += 1;
        }
        let u = Universe { width, height, cells, ncells, rand };
        proof {
            assert(u@.next =~= u@.current);
        }
        Ok(u)
    }

    /// The width of the universe.
    pub fn width(&self) -> (r: u32)
        ensures
            r as int == self@.width,
    {
        self.width
    }

    /// The height of the universe.
    pub fn height(&self) -> (r: u32)
        ensures
            r as int == self@.height,
    {
        self.height
    }

    /// The displayed generation: a read-only view of the packed bit buffer
    /// most recently computed by `tick`, row-major, one bit per cell.
    pub fn cells(&self) -> (r: &FixedBitSet)
        ensures
            bit_seq(*r) == self@.next,
    {
        &self.ncells
    }

    /// A read-only view of the primary buffer, the working generation that
    /// mutation calls write to.
    pub fn get_cells(&self) -> (r: &FixedBitSet)
        ensures
            bit_seq(*r) == self@.current,
    {
        &self.cells
    }

    /// The flat, row-major index of the cell at `(row, column)`.
    pub fn get_index(&self, row: u32, column: u32) -> (r: usize)
        requires
            self.wf(),
            (row as int) < self@.height,
            (column as int) < self@.width,
        ensures
            r as int == idx(self@.width, row as int, column as int),
    {
        proof {
            lemma_idx_bounds(self@.width, self@.height, row as int, column as int);
        }
        (row * self.width + column) as usize
    }

    /// Reads the cell at `(row, column)` of the working generation, or
    /// reports `IndexOutOfRange` exactly when the coordinates are not both
    /// in range.
    pub fn cell(&self, row: u32, column: u32) -> (r: Result<bool, GridError>)
        requires
            self.wf(),
        ensures
            (row as int) < self@.height && (column as int) < self@.width ==> r == Ok::<
                bool,
                GridError,
            >(cell_at(self@.current, self@.width, row as int, column as int)),
            !((row as int) < self@.height && (column as int) < self@.width) ==> r == Err::<
                bool,
                GridError,
            >(GridError::IndexOutOfRange),
    {
        if row < self.height && column < self.width {
            let i = self.get_index(row, column);
            proof {
                lemma_idx_bounds(self@.width, self@.height, row as int, column as int);
            }
            Ok(fbs_get(&self.cells, i))
        } else {
            Err(GridError::IndexOutOfRange)
        }
    }

    /// Flips the alive state of the cell at `(row, column)` of the working
    /// generation, or reports `IndexOutOfRange` exactly when the
    /// coordinates are not both in range; no other cell changes, and the
    /// displayed generation is untouched.
    pub fn toggle_cell(&mut self, row: u32, column: u32) -> (r: Result<(), GridError>)
        requires
            old(self).wf(),
        ensures
            final(self).wf(),
            final(self)@.width == old(self)@.width,
            final(self)@.height == old(self)@.height,
            final(self)@.next == old(self)@.next,
            (row as int) < old(self)@.height && (column as int) < old(self)@.width ==> (r is Ok
                && final(self)@.current == toggled(
                old(self)@.current,
                idx(old(self)@.width, row as int, column as int),
            )),
            !((row as int) < old(self)@.height && (column as int) < old(self)@.width) ==> (r is Err
                && r->Err_0 == GridError::IndexOutOfRange && final(self)@.current == old(
                self,
            )@.current),
    {
        if row < self.height && column < self.width {
            let i = self.get_index(row, column);
            proof {
                lemma_idx_bounds(self@.width, self@.height, row as int, column as int);
            }
            let b = fbs_get(&self.cells, i);
            fbs_set(&mut self.cells, i, !b);
            Ok(())
        } else {
            Err(GridError::IndexOutOfRange)
        }
    }

    /// The text display of the displayed generation, the same buffer that
    /// `cells` exports: one glyph per cell, rows separated by newlines,
    /// purely a projection for debugging.
    pub fn render(&self) -> (r: String)
        requires
            self.wf(),
        ensures
            r@ == render_spec(self@.next, self@.width, self@.height),
    {
        let w = self.width;
        let h = self.height;
        let ghost wide = w as int + 1;
        let mut out = String::new();
        let mut row: u32 = 0;
        while row < h
            invariant
                self.wf(),
                w == self.width,
                h == self.height,
                wide == w as int + 1,
                row <= h,
                out@ == render_spec(self@.next, w as int, h as int).take(row as int * wide),
            decreases h - row,
        {
            proof {
                lemma_idx_bounds(wide, h as int, row as int, 0);
            }
            let mut col: u32 = 0;
            while col < w
                invariant
                    self.wf(),
                    w == self.width,
                    h == self.height,
                    wide == w as int + 1,
                    row < h,
                    col <= w,
                    out@ == render_spec(self@.next, w as int, h as int).take(
                        idx(wide, row as int, col as int),
                    ),
                decreases w - col,
            {
                proof {
                    lemma_idx_bounds(w as int, h as int, row as int, col as int);
                }
                let i = self.get_index(row, col);
                let alive = fbs_get(&self.ncells, i);
                if alive {
                    out.append("\u{25fc}");
                } else {
                    out.append("\u{25fb}");
                }
                proof {
                    reveal_strlit("\u{25fc}");
                    reveal_strlit("\u{25fb}");
                    lemma_idx_bounds(wide, h as int, row as int, col as int);
                    lemma_idx_decomposition(wide, row as int, col as int);
                    assert((h as int) * wide == wide * (h as int)) by (nonlinear_arith);
                    assert(out@ =~= render_spec(self@.next, w as int, h as int).take(
                        idx(wide, row as int, col as int + 1),
                    ));
                }
                col += 1;
            }
            out.append("\n");
            proof {
                reveal_strlit("\n");
                lemma_idx_bounds(wide, h as int, row as int, w as int);
                lemma_idx_decomposition(wide, row as int, w as int);
                assert((h as int) * wide == wide * (h as int)) by (nonlinear_arith);
                assert((row as int + 1) * wide == (row as int) * wide + w as int + 1)
                    by (nonlinear_arith)
                    requires
                        wide == w as int + 1,
                ;
                assert(out@ =~= render_spec(self@.next, w as int, h as int).take(
                    (row as int + 1) * wide,
                ));
            }
            row += 1;
        }
        proof {
            assert((h as int) * wide == wide * (h as int)) by (nonlinear_arith);
            assert(out@ =~= render_spec(self@.next, w as int, h as int));
        }
        out
    }

    /// Reads the cell at `(row, column)` of the working generation.
    fn bit_at(&self, row: u32, column: u32) -> (r: bool)
        requires
            self.wf(),
            (row as int) < self@.height,
            (column as int) < self@.width,
        ensures
            r == cell_at(self@.current, self@.width, row as int, column as int),
    {
        proof {
            lemma_idx_bounds(self@.width, self@.height, row as int, column as int);
        }
        let i = self.get_index(row, column);
        fbs_get(&self.cells, i)
    }

    /// Counts the live cells among the eight toroidally wrapped neighbors
    /// of `(row, column)` in the working generation.
    fn live_neighbor_count(&self, row: u32, column: u32) -> (r: u8)
        requires
            self.wf(),
            (row as int) < self@.height,
            (column as int) < self@.width,
        ensures
            r as int == live_neighbors(
                self@.current,
                self@.width,
                self@.height,
                row as int,
                column as int,
            ),
    {
        let w = self.width;
        let h = self.height;
        let rm = wrap_sub_one(row, h);
        let rp = wrap_add_one(row, h);
        let cm = wrap_sub_one(column, w);
        let cp = wrap_add_one(column, w);
        let mut count: u8 = 0;
        if self.bit_at(rm, cm) {
            count += 1;
        }
        if self.bit_at(rm, column) {
            count += 1;
        }
        if self.bit_at(rm, cp) {
            count += 1;
        }
        if self.bit_at(row, cm) {
            count += 1;
        }
        if self.bit_at(row, cp) {
            count += 1;
        }
        if self.bit_at(rp, cm) {
            count += 1;
        }
        if self.bit_at(rp, column) {
            count += 1;
        }
        if self.bit_at(rp, cp) {
            count += 1;
        }
        count
    }

    /// Advances the universe by one generation. Every cell of the next
    /// generation is computed from the working generation alone, written to
    /// the secondary buffer, and the result is then copied back, so both
    /// buffers end up holding the new generation.
    pub fn tick(&mut self)
        requires
            old(self).wf(),
        ensures
            final(self).wf(),
            final(self)@.width == old(self)@.width,
            final(self)@.height == old(self)@.height,
            final(self)@.current == step(old(self)@.current, old(self)@.width, old(self)@.height),
            final(self)@.next == final(self)@.current,
    {
        let w = self.width;
        let h = self.height;
        let ghost s0 = self@.current;
        let mut row: u32 = 0;
        while row < h
            invariant
                self.wf(),
                w == self.width,
                h == self.height,
                bit_seq(self.cells) == s0,
                row <= h,
                forall|k: int|
                    0 <= k < (row as int) * (w as int) ==> bit_seq(self.ncells)[k] == step(
                        s0,
                        w as int,
                        h as int,
                    )[k],
            decreases h - row,
        {
            let mut col: u32 = 0;
            while col < w
                invariant
                    self.wf(),
                    w == self.width,
                    h == self.height,
                    bit_seq(self.cells) == s0,
                    row < h,
                    col <= w,
                    forall|k: int|
                        0 <= k < idx(w as int, row as int, col as int) ==> bit_seq(self.ncells)[k]
                            == step(s0, w as int, h as int)[k],
                decreases w - col,
            {
                proof {
                    lemma_idx_bounds(w as int, h as int, row as int, col as int);
                    lemma_idx_decomposition(w as int, row as int, col as int);
                }
                let i = self.get_index(row, col);
                let alive = fbs_get(&self.cells, i);
                let n = self.live_neighbor_count(row, col);
                let next_cell = if alive {
                    n == 2 || n == 3
                } else {
                    n == 3
                };
                fbs_set(&mut self.ncells, i, next_cell);
                col += 1;
            }
            proof {
                assert((row as int + 1) * (w as int) == (row as int) * (w as int) + (w as int))
                    by (nonlinear_arith);
            }
            row += 1;
        }
        proof {
            assert((h as int) * (w as int) == (w as int) * (h as int)) by (nonlinear_arith);
            assert(bit_seq(self.ncells) =~= step(s0, w as int, h as int));
        }
        let size = fbs_len(&self.ncells);
        let mut i: usize = 0;
        while i < size
            invariant
                i <= size,
                w == self.width,
                h == self.height,
                bit_seq(self.ncells).len() == size,
                bit_seq(self.cells).len() == size,
                bit_seq(self.ncells) == step(s0, w as int, h as int),
                forall|k: int| 0 <= k < i ==> bit_seq(self.cells)[k] == bit_seq(self.ncells)[k],
            decreases size - i,
        {
            let b = fbs_get(&self.ncells, i);
            fbs_set(&mut self.cells, i, b);
            i += 1;
        }
        proof {
            assert(self@.current =~= self@.next);
        }
    }

    /// Stamps the canonical five-cell glider centered at
    /// `(center_row, center_col)` into the working generation: the
    /// four-by-four neighborhood beginning two cells up and left of the
    /// center is cleared, then the five glider cells are set alive. The
    /// call is a no-op when the center is within two cells of the top or
    /// left edge, or the neighborhood would not fit at the bottom or right
    /// edge; the displayed generation is untouched either way.
    pub fn set_glider(&mut self, center_row: u32, center_col: u32)
        requires
            old(self).wf(),
        ensures
            final(self).wf(),
            final(self)@.width == old(self)@.width,
            final(self)@.height == old(self)@.height,
            final(self)@.next == old(self)@.next,
            glider_applicable(
                old(self)@.width,
                old(self)@.height,
                center_row as int,
                center_col as int,
            ) ==> final(self)@.current == glider_stamped(
                old(self)@.current,
                old(self)@.width,
                center_row as int,
                center_col as int,
            ),
            !glider_applicable(
                old(self)@.width,
                old(self)@.height,
                center_row as int,
                center_col as int,
            ) ==> final(self)@.current == old(self)@.current,
    {
        let w = self.width;
        let h = self.height;
        if center_row >= 2 && center_col >= 2 && h >= 2 && center_row <= h - 2 && w >= 2
            && center_col <= w - 2 {
            let ghost s0 = self@.current;
            let ghost cr = center_row as int;
            let ghost cc = center_col as int;
            let r0 = center_row - 2;
            let c0 = center_col - 2;
            let mut dr: u32 = 0;
            while dr < 4
                invariant
                    self.wf(),
                    w == self.width,
                    h == self.height,
                    bit_seq(self.ncells) == old(self)@.next,
                    cr == center_row as int,
                    cc == center_col as int,
                    r0 as int == cr - 2,
                    c0 as int == cc - 2,
                    glider_applicable(w as int, h as int, cr, cc),
                    dr <= 4,
                    bit_seq(self.cells).len() == s0.len(),
                    s0.len() == (w as int) * (h as int),
                    forall|k: int|
                        0 <= k < s0.len() ==> bit_seq(self.cells)[k] == (if r0 as int <= k / (
                        w as int) < r0 as int + dr as int && c0 as int <= k % (w as int) < c0 as int
                            + 4 {
                            false
                        } else {
                            s0[k]
                        }),
                decreases 4 - dr,
            {
                proof {
                    lemma_idx_bounds(w as int, h as int, r0 as int + dr as int, c0 as int + 3);
                }
                let start = self.get_index(r0 + dr, c0);
                let ghost prev = bit_seq(self.cells);
                fbs_set_range(&mut self.cells, start, start + 4, false);
                proof {
                    assert forall|k: int| 0 <= k < s0.len() implies bit_seq(self.cells)[k] == (
                    if r0 as int <= k / (w as int) < r0 as int + dr as int + 1 && c0 as int <= k % (
                    w as int) < c0 as int + 4 {
                        false
                    } else {
                        s0[k]
                    }) by {
                        lemma_index_split(w as int, h as int, k);
                        if start as int <= k < start as int + 4 {
                            lemma_flat_range_decode(
                                w as int,
                                r0 as int + dr as int,
                                c0 as int,
                                c0 as int + 4,
                                k,
                            );
                        }
                    }
                }
                dr += 1;
            }
            let ghost cleared = bit_seq(self.cells);
            proof {
                lemma_idx_bounds(w as int, h as int, cr - 1, cc - 1);
                lemma_idx_bounds(w as int, h as int, cr, cc);
                lemma_idx_bounds(w as int, h as int, cr, cc + 1);
                lemma_idx_bounds(w as int, h as int, cr + 1, cc - 1);
                lemma_idx_bounds(w as int, h as int, cr + 1, cc);
                lemma_idx_decomposition(w as int, cr - 1, cc - 1);
                lemma_idx_decomposition(w as int, cr, cc);
                lemma_idx_decomposition(w as int, cr, cc + 1);
                lemma_idx_decomposition(w as int, cr + 1, cc - 1);
                lemma_idx_decomposition(w as int, cr + 1, cc);
            }
            let i1 = self.get_index(center_row - 1, center_col - 1);
            fbs_set(&mut self.cells, i1, true);
            let i2 = self.get_index(center_row, center_col);
            fbs_set(&mut self.cells, i2, true);
            let i3 = self.get_index(center_row, center_col + 1);
            fbs_set(&mut self.cells, i3, true);
            let i4 = self.get_index(center_row + 1, center_col - 1);
            fbs_set(&mut self.cells, i4, true);
            let i5 = self.get_index(center_row + 1, center_col);
            fbs_set(&mut self.cells, i5, true);
            proof {
                assert forall|k: int|
                    0 <= k < s0.len() implies bit_seq(self.cells)[k] == glider_stamped(
                    s0,
                    w as int,
                    cr,
                    cc,
                )[k] by {
                    lemma_index_split(w as int, h as int, k);
                }
                assert(bit_seq(self.cells) =~= glider_stamped(s0, w as int, cr, cc));
            }
        }
    }

    /// Reseeds every cell of both buffers identically and independently
    /// from the random source; the dimensions stay, and both buffers end
    /// equal.
    pub fn reset(&mut self)
        requires
            old(self).wf(),
        ensures
            final(self).wf(),
            final(self)@.width == old(self)@.width,
            final(self)@.height == old(self)@.height,
            final(self)@.next == final(self)@.current,
    {
        let size = fbs_len(&self.cells);
        let mut i: usize = 0;
        while i < size
            invariant
                i <= size,
                bit_seq(self.cells).len() == size,
                bit_seq(self.ncells).len() == size,
                self.width == old(self).width,
                self.height == old(self).height,
                forall|k: int| 0 <= k < i ==> bit_seq(self.ncells)[k] == bit_seq(self.cells)[k],
            decreases size - i,
        {
            let b = self.rand.next_bool();
            fbs_set(&mut self.cells, i, b);
            fbs_set(&mut self.ncells, i, b);
            i += 1;
        }
        proof {
            assert(self@.next =~= self@.current);
        }
    }
}

} // verus!
