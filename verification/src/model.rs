//! The mathematical model of the automaton: a generation is a flat,
//! row-major sequence of cell states, and one step of the simulation is a
//! pure function on such sequences.

use vstd::arithmetic::div_mod::lemma_fundamental_div_mod;
use vstd::arithmetic::div_mod::lemma_fundamental_div_mod_converse;
use vstd::arithmetic::mul::lemma_mul_inequality;
use vstd::prelude::*;

verus! {

/// The flat, row-major index of the cell at `(r, c)` in a grid `w` cells wide.
pub open spec fn idx(w: int, r: int, c: int) -> int {
    r * w + c
}

/// The row of a toroidal grid `m` rows high that lies one above `i`.
pub open spec fn wrap_dec(i: int, m: int) -> int
    recommends
        0 <= i < m,
{
    if i == 0 {
        m - 1
    } else {
        i - 1
    }
}

/// The row of a toroidal grid `m` rows high that lies one below `i`.
pub open spec fn wrap_inc(i: int, m: int) -> int
    recommends
        0 <= i < m,
{
    if i + 1 == m {
        0
    } else {
        i + 1
    }
}

/// The state of the cell at `(r, c)` in a grid `w` cells wide.
pub open spec fn cell_at(s: Seq<bool>, w: int, r: int, c: int) -> bool {
    s[idx(w, r, c)]
}

/// Counts a live cell as one and a dead cell as zero.
pub open spec fn one_if(b: bool) -> int {
    if b {
        1
    } else {
        0
    }
}

/// The number of live cells among the eight toroidally wrapped neighbors of
/// `(r, c)`: the cells in the surrounding three-by-three window, with rows
/// taken modulo `h` and columns modulo `w`, excluding `(r, c)` itself.
pub open spec fn live_neighbors(s: Seq<bool>, w: int, h: int, r: int, c: int) -> int {
    let rm = wrap_dec(r, h);
    let rp = wrap_inc(r, h);
    let cm = wrap_dec(c, w);
    let cp = wrap_inc(c, w);
    one_if(cell_at(s, w, rm, cm)) + one_if(cell_at(s, w, rm, c)) + one_if(cell_at(s, w, rm, cp))
        + one_if(cell_at(s, w, r, cm)) + one_if(cell_at(s, w, r, cp)) + one_if(
        cell_at(s, w, rp, cm),
    ) + one_if(cell_at(s, w, rp, c)) + one_if(cell_at(s, w, rp, cp))
}

/// The rule of the automaton: a live cell survives with two or three live
/// neighbors and otherwise dies; a dead cell becomes alive with exactly
/// three live neighbors and otherwise stays dead.
pub open spec fn next_state(alive: bool, n: int) -> bool {
    if alive {
        n == 2 || n == 3
    } else {
        n == 3
    }
}

/// One generation step of the whole grid: every cell is evaluated against
/// the prior generation `s`.
pub open spec fn step(s: Seq<bool>, w: int, h: int) -> Seq<bool> {
    Seq::new(s.len(), |i: int| next_state(s[i], live_neighbors(s, w, h, i / w, i % w)))
}

/// Holds when every cell of the grid is dead.
pub open spec fn all_dead(s: Seq<bool>) -> bool {
    forall|i: int| 0 <= i < s.len() ==> !s[i]
}

/// The grid with the cell at flat index `i` flipped.
pub open spec fn toggled(s: Seq<bool>, i: int) -> Seq<bool> {
    s.update(i, !s[i])
}

/// Holds when `(r, c)` lies in the four-by-four neighborhood that stamping
/// a glider at `(cr, cc)` overwrites: the block beginning at
/// `(cr - 2, cc - 2)`.
pub open spec fn in_glider_block(cr: int, cc: int, r: int, c: int) -> bool {
    cr - 2 <= r <= cr + 1 && cc - 2 <= c <= cc + 1
}

/// Holds when `(r, c)` is one of the five cells of the canonical glider
/// stamped at `(cr, cc)`.
pub open spec fn glider_cell(cr: int, cc: int, r: int, c: int) -> bool {
    ||| (r == cr - 1 && c == cc - 1)
    ||| (r == cr && c == cc)
    ||| (r == cr && c == cc + 1)
    ||| (r == cr + 1 && c == cc - 1)
    ||| (r == cr + 1 && c == cc)
}

/// Holds when the glider block stamped at `(cr, cc)` fits the grid: two
/// cells of margin above and to the left, and the block itself in range.
pub open spec fn glider_applicable(w: int, h: int, cr: int, cc: int) -> bool {
    cr >= 2 && cc >= 2 && cr + 2 <= h && cc + 2 <= w
}

/// The grid `s` with a glider stamped at `(cr, cc)`: inside the
/// four-by-four neighborhood exactly the five glider cells are alive, and
/// every cell outside it is unchanged.
pub open spec fn glider_stamped(s: Seq<bool>, w: int, cr: int, cc: int) -> Seq<bool> {
    Seq::new(
        s.len(),
        |i: int|
            if in_glider_block(cr, cc, i / w, i % w) {
                glider_cell(cr, cc, i / w, i % w)
            } else {
                s[i]
            },
    )
}

/// Holds when `(r, c)` lies in the two-by-two block whose top-left corner
/// is `(r0, c0)`.
pub open spec fn block_cell(r0: int, c0: int, r: int, c: int) -> bool {
    r0 <= r <= r0 + 1 && c0 <= c <= c0 + 1
}

/// The glyph that displays one cell: a filled square for a live cell and
/// an open square for a dead one.
pub open spec fn glyph(b: bool) -> char {
    if b {
        '\u{25fc}'
    } else {
        '\u{25fb}'
    }
}

/// The text display of a grid: one glyph per cell, row-major, each row of
/// `w` glyphs followed by a newline.
pub open spec fn render_spec(s: Seq<bool>, w: int, h: int) -> Seq<char> {
    Seq::new(
        (h * (w + 1)) as nat,
        |i: int|
            if i % (w + 1) == w {
                '\n'
            } else {
                glyph(cell_at(s, w, i / (w + 1), i % (w + 1)))
            },
    )
}

/// A cell with both coordinates in range has its flat index in range.
pub proof fn lemma_idx_bounds(w: int, h: int, r: int, c: int)
    requires
        0 <= r < h,
        0 <= c < w,
    ensures
        0 <= idx(w, r, c) < w * h,
{
    lemma_mul_inequality(r, h - 1, w);
    assert(r * w + c < h * w) by (nonlinear_arith)
        requires
            r * w <= (h - 1) * w,
            c < w,
    ;
    assert(h * w == w * h) by (nonlinear_arith);
}

/// The flat index determines the coordinates: dividing `idx(w, r, c)` by
/// the width recovers the row, and the remainder recovers the column.
pub proof fn lemma_idx_decomposition(w: int, r: int, c: int)
    requires
        0 < w,
        0 <= r,
        0 <= c < w,
    ensures
        idx(w, r, c) / w == r,
        idx(w, r, c) % w == c,
{
    lemma_fundamental_div_mod_converse(idx(w, r, c), w, r, c);
}

/// A flat index in range decodes to coordinates in range, and encoding
/// them again gives the index back.
pub proof fn lemma_index_split(w: int, h: int, i: int)
    requires
        0 < w,
        0 < h,
        0 <= i < w * h,
    ensures
        0 <= i / w < h,
        0 <= i % w < w,
        idx(w, i / w, i % w) == i,
{
    lemma_fundamental_div_mod(i, w);
    assert(0 <= i % w < w) by (nonlinear_arith)
        requires
            0 < w,
            0 <= i,
    ;
    assert(0 <= i / w) by (nonlinear_arith)
        requires
            0 < w,
            0 <= i,
            i == w * (i / w) + (i % w),
            0 <= i % w < w,
    ;
    assert(i / w < h) by (nonlinear_arith)
        requires
            0 < w,
            0 < h,
            i < w * h,
            i == w * (i / w) + (i % w),
            0 <= i % w < w,
    ;
    assert((i / w) * w == w * (i / w)) by (nonlinear_arith);
}

/// A flat index inside the segment of row `r` spanning columns `a..b`
/// decodes to that row and to a column in `a..b`.
pub proof fn lemma_flat_range_decode(w: int, r: int, a: int, b: int, k: int)
    requires
        0 < w,
        0 <= r,
        0 <= a <= b <= w,
        idx(w, r, a) <= k < idx(w, r, b),
    ensures
        k / w == r,
        a <= k % w < b,
{
    lemma_fundamental_div_mod_converse(k, w, r, k - r * w);
}

} // verus!
