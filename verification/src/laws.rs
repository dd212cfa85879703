//! General laws of the engine, stated over the model that the engine's
//! contracts use and proved once for every grid.

use crate::model::{
    all_dead, block_cell, glider_cell, idx, lemma_idx_bounds, lemma_idx_decomposition,
    lemma_index_split, live_neighbors, step, toggled, wrap_dec, wrap_inc,
};
use vstd::prelude::*;

verus! {

/// The shape of the glider one step after the stamped phase.
pub open spec fn glider_phase1(cr: int, cc: int, r: int, c: int) -> bool {
    ||| (r == cr - 1 && c == cc)
    ||| (r == cr && c == cc + 1)
    ||| (r == cr + 1 && c == cc - 1)
    ||| (r == cr + 1 && c == cc)
    ||| (r == cr + 1 && c == cc + 1)
}

/// The shape of the glider two steps after the stamped phase.
pub open spec fn glider_phase2(cr: int, cc: int, r: int, c: int) -> bool {
    ||| (r == cr && c == cc - 1)
    ||| (r == cr && c == cc + 1)
    ||| (r == cr + 1 && c == cc)
    ||| (r == cr + 1 && c == cc + 1)
    ||| (r == cr + 2 && c == cc)
}

/// The shape of the glider three steps after the stamped phase.
pub open spec fn glider_phase3(cr: int, cc: int, r: int, c: int) -> bool {
    ||| (r == cr && c == cc + 1)
    ||| (r == cr + 1 && c == cc - 1)
    ||| (r == cr + 1 && c == cc + 1)
    ||| (r == cr + 2 && c == cc)
    ||| (r == cr + 2 && c == cc + 1)
}

/// Holds when a glider stamped at `(cr, cc)` has two cells of clearance on
/// every side, so that none of its four phases touches a grid edge.
pub open spec fn glider_fits(w: int, h: int, cr: int, cc: int) -> bool {
    &&& 2 <= cr
    &&& cr + 3 <= h
    &&& 2 <= cc
    &&& cc + 3 <= w
}

/// An all-dead grid is a fixed point of the generation step: with no live
/// cell anywhere, every neighbor count is zero, so advancing a dead grid
/// any number of times leaves it dead.
pub proof fn lemma_dead_grid_is_fixed_point(s: Seq<bool>, w: int, h: int)
    requires
        0 < w,
        0 < h,
        s.len() == w * h,
        all_dead(s),
    ensures
        step(s, w, h) == s,
        step(step(s, w, h), w, h) == s,
{
    assert forall|i: int| 0 <= i < s.len() implies step(s, w, h)[i] == s[i] by {
        lemma_index_split(w, h, i);
        let r = i / w;
        let c = i % w;
        lemma_idx_bounds(w, h, wrap_dec(r, h), wrap_dec(c, w));
        lemma_idx_bounds(w, h, wrap_dec(r, h), c);
        lemma_idx_bounds(w, h, wrap_dec(r, h), wrap_inc(c, w));
        lemma_idx_bounds(w, h, r, wrap_dec(c, w));
        lemma_idx_bounds(w, h, r, wrap_inc(c, w));
        lemma_idx_bounds(w, h, wrap_inc(r, h), wrap_dec(c, w));
        lemma_idx_bounds(w, h, wrap_inc(r, h), c);
        lemma_idx_bounds(w, h, wrap_inc(r, h), wrap_inc(c, w));
        assert(live_neighbors(s, w, h, r, c) == 0);
    }
    assert(step(s, w, h) =~= s);
}

/// Toggling one cell flips exactly that cell and no other, and toggling it
/// twice in succession restores the original grid.
pub proof fn lemma_toggle_twice_restores(s: Seq<bool>, i: int)
    requires
        0 <= i < s.len(),
    ensures
        toggled(s, i)[i] == !s[i],
        forall|j: int| 0 <= j < s.len() && j != i ==> toggled(s, i)[j] == s[j],
        toggled(toggled(s, i), i) == s,
{
    assert(toggled(toggled(s, i), i) =~= s);
}

/// A single live cell with every other cell dead dies of underpopulation
/// after one step, and wakes no other cell, so the grid goes all dead.
/// Grids of width or height one are excluded: there the wrapped
/// neighborhood of the cell contains the cell itself twice, so a lone cell
/// counts two live neighbors and survives.
#[verifier::rlimit(100)]
pub proof fn lemma_lone_live_cell_dies(s: Seq<bool>, w: int, h: int, j: int)
    requires
        2 <= w,
        2 <= h,
        s.len() == w * h,
        0 <= j < s.len(),
        s[j],
        forall|i: int| 0 <= i < s.len() && i != j ==> !s[i],
    ensures
        all_dead(step(s, w, h)),
{
    lemma_index_split(w, h, j);
    let a = j / w;
    let b = j % w;
    lemma_idx_decomposition(w, a, b);
    assert forall|i: int| 0 <= i < step(s, w, h).len() implies !step(s, w, h)[i] by {
        lemma_index_split(w, h, i);
        let r = i / w;
        let c = i % w;
        let rm = wrap_dec(r, h);
        let rp = wrap_inc(r, h);
        let cm = wrap_dec(c, w);
        let cp = wrap_inc(c, w);
        lemma_idx_bounds(w, h, rm, cm);
        lemma_idx_bounds(w, h, rm, c);
        lemma_idx_bounds(w, h, rm, cp);
        lemma_idx_bounds(w, h, r, cm);
        lemma_idx_bounds(w, h, r, cp);
        lemma_idx_bounds(w, h, rp, cm);
        lemma_idx_bounds(w, h, rp, c);
        lemma_idx_bounds(w, h, rp, cp);
        lemma_idx_decomposition(w, rm, cm);
        lemma_idx_decomposition(w, rm, c);
        lemma_idx_decomposition(w, rm, cp);
        lemma_idx_decomposition(w, r, cm);
        lemma_idx_decomposition(w, r, cp);
        lemma_idx_decomposition(w, rp, cm);
        lemma_idx_decomposition(w, rp, c);
        lemma_idx_decomposition(w, rp, cp);
        assert(live_neighbors(s, w, h, r, c) != 3);
        if i == j {
            assert(live_neighbors(s, w, h, r, c) == 0);
        }
    }
}

/// One step takes the stamped glider to its second phase.
#[verifier::rlimit(100)]
pub proof fn lemma_glider_step_one(s: Seq<bool>, w: int, h: int, cr: int, cc: int)
    requires
        6 <= w,
        6 <= h,
        s.len() == w * h,
        glider_fits(w, h, cr, cc),
        forall|i: int| 0 <= i < s.len() ==> s[i] == glider_cell(cr, cc, i / w, i % w),
    ensures
        forall|i: int| 0 <= i < s.len() ==> step(s, w, h)[i] == glider_phase1(cr, cc, i / w, i % w),
{
    assert forall|i: int| 0 <= i < s.len() implies step(s, w, h)[i] == glider_phase1(
        cr,
        cc,
        i / w,
        i % w,
    ) by {
        glider_phase_step_facts(s, w, h, i);
    }
}

/// One step takes the glider's second phase to its third.
#[verifier::rlimit(100)]
pub proof fn lemma_glider_step_two(s: Seq<bool>, w: int, h: int, cr: int, cc: int)
    requires
        6 <= w,
        6 <= h,
        s.len() == w * h,
        glider_fits(w, h, cr, cc),
        forall|i: int| 0 <= i < s.len() ==> s[i] == glider_phase1(cr, cc, i / w, i % w),
    ensures
        forall|i: int| 0 <= i < s.len() ==> step(s, w, h)[i] == glider_phase2(cr, cc, i / w, i % w),
{
    assert forall|i: int| 0 <= i < s.len() implies step(s, w, h)[i] == glider_phase2(
        cr,
        cc,
        i / w,
        i % w,
    ) by {
        glider_phase_step_facts(s, w, h, i);
    }
}

/// One step takes the glider's third phase to its fourth.
#[verifier::rlimit(100)]
pub proof fn lemma_glider_step_three(s: Seq<bool>, w: int, h: int, cr: int, cc: int)
    requires
        6 <= w,
        6 <= h,
        s.len() == w * h,
        glider_fits(w, h, cr, cc),
        forall|i: int| 0 <= i < s.len() ==> s[i] == glider_phase2(cr, cc, i / w, i % w),
    ensures
        forall|i: int| 0 <= i < s.len() ==> step(s, w, h)[i] == glider_phase3(cr, cc, i / w, i % w),
{
    assert forall|i: int| 0 <= i < s.len() implies step(s, w, h)[i] == glider_phase3(
        cr,
        cc,
        i / w,
        i % w,
    ) by {
        glider_phase_step_facts(s, w, h, i);
    }
}

/// One step takes the glider's fourth phase back to the stamped shape,
/// translated one cell down and one cell right.
#[verifier::rlimit(100)]
pub proof fn lemma_glider_step_four(s: Seq<bool>, w: int, h: int, cr: int, cc: int)
    requires
        6 <= w,
        6 <= h,
        s.len() == w * h,
        glider_fits(w, h, cr, cc),
        forall|i: int| 0 <= i < s.len() ==> s[i] == glider_phase3(cr, cc, i / w, i % w),
    ensures
        forall|i: int|
            0 <= i < s.len() ==> step(s, w, h)[i] == glider_cell(cr + 1, cc + 1, i / w, i % w),
{
    assert forall|i: int| 0 <= i < s.len() implies step(s, w, h)[i] == glider_cell(
        cr + 1,
        cc + 1,
        i / w,
        i % w,
    ) by {
        glider_phase_step_facts(s, w, h, i);
    }
}

/// Holds when the flat index of `(x, y)` is in range and decodes back to
/// `(x, y)`.
spec fn decodes(w: int, h: int, x: int, y: int) -> bool {
    &&& 0 <= idx(w, x, y) < w * h
    &&& idx(w, x, y) / w == x
    &&& idx(w, x, y) % w == y
}

/// The arithmetic facts every per-cell glider step case needs: the
/// decomposition of the cell's index and of the indices of its eight
/// wrapped neighbors.
proof fn glider_phase_step_facts(s: Seq<bool>, w: int, h: int, i: int)
    requires
        0 < w,
        0 < h,
        s.len() == w * h,
        0 <= i < s.len(),
    ensures
        0 <= i / w < h,
        0 <= i % w < w,
        idx(w, i / w, i % w) == i,
        decodes(w, h, wrap_dec(i / w, h), wrap_dec(i % w, w)),
        decodes(w, h, wrap_dec(i / w, h), i % w),
        decodes(w, h, wrap_dec(i / w, h), wrap_inc(i % w, w)),
        decodes(w, h, i / w, wrap_dec(i % w, w)),
        decodes(w, h, i / w, wrap_inc(i % w, w)),
        decodes(w, h, wrap_inc(i / w, h), wrap_dec(i % w, w)),
        decodes(w, h, wrap_inc(i / w, h), i % w),
        decodes(w, h, wrap_inc(i / w, h), wrap_inc(i % w, w)),
{
    lemma_index_split(w, h, i);
    let r = i / w;
    let c = i % w;
    let rm = wrap_dec(r, h);
    let rp = wrap_inc(r, h);
    let cm = wrap_dec(c, w);
    let cp = wrap_inc(c, w);
    lemma_idx_bounds(w, h, rm, cm);
    lemma_idx_bounds(w, h, rm, c);
    lemma_idx_bounds(w, h, rm, cp);
    lemma_idx_bounds(w, h, r, cm);
    lemma_idx_bounds(w, h, r, cp);
    lemma_idx_bounds(w, h, rp, cm);
    lemma_idx_bounds(w, h, rp, c);
    lemma_idx_bounds(w, h, rp, cp);
    lemma_idx_decomposition(w, rm, cm);
    lemma_idx_decomposition(w, rm, c);
    lemma_idx_decomposition(w, rm, cp);
    lemma_idx_decomposition(w, r, cm);
    lemma_idx_decomposition(w, r, cp);
    lemma_idx_decomposition(w, rp, cm);
    lemma_idx_decomposition(w, rp, c);
    lemma_idx_decomposition(w, rp, cp);
}

/// A glider stamped with clearance from every edge returns to its stamped
/// shape translated one cell down and one cell right after exactly four
/// steps, with every other cell dead throughout.
#[verifier::rlimit(100)]
pub proof fn lemma_glider_translates_in_four_steps(s: Seq<bool>, w: int, h: int, cr: int, cc: int)
    requires
        6 <= w,
        6 <= h,
        s.len() == w * h,
        glider_fits(w, h, cr, cc),
        forall|i: int| 0 <= i < s.len() ==> s[i] == glider_cell(cr, cc, i / w, i % w),
    ensures
        forall|i: int|
            0 <= i < s.len() ==> step(step(step(step(s, w, h), w, h), w, h), w, h)[i]
                == glider_cell(cr + 1, cc + 1, i / w, i % w),
{
    let s1 = step(s, w, h);
    let s2 = step(s1, w, h);
    let s3 = step(s2, w, h);
    lemma_glider_step_one(s, w, h, cr, cc);
    lemma_glider_step_two(s1, w, h, cr, cc);
    lemma_glider_step_three(s2, w, h, cr, cc);
    lemma_glider_step_four(s3, w, h, cr, cc);
}

/// A two-by-two all-live block, alone in a grid at least four cells wide
/// and high, is a still life: every block cell has exactly three live
/// neighbors and survives, and no dead cell reaches three, so one step
/// leaves the grid unchanged.
#[verifier::rlimit(100)]
pub proof fn lemma_block_is_still_life(s: Seq<bool>, w: int, h: int, r0: int, c0: int)
    requires
        4 <= w,
        4 <= h,
        s.len() == w * h,
        0 <= r0,
        r0 + 1 < h,
        0 <= c0,
        c0 + 1 < w,
        forall|i: int| 0 <= i < s.len() ==> s[i] == block_cell(r0, c0, i / w, i % w),
    ensures
        step(s, w, h) == s,
{
    assert forall|i: int| 0 <= i < s.len() implies step(s, w, h)[i] == s[i] by {
        lemma_index_split(w, h, i);
        let r = i / w;
        let c = i % w;
        let rm = wrap_dec(r, h);
        let rp = wrap_inc(r, h);
        let cm = wrap_dec(c, w);
        let cp = wrap_inc(c, w);
        lemma_idx_bounds(w, h, rm, cm);
        lemma_idx_bounds(w, h, rm, c);
        lemma_idx_bounds(w, h, rm, cp);
        lemma_idx_bounds(w, h, r, cm);
        lemma_idx_bounds(w, h, r, cp);
        lemma_idx_bounds(w, h, rp, cm);
        lemma_idx_bounds(w, h, rp, c);
        lemma_idx_bounds(w, h, rp, cp);
        lemma_idx_decomposition(w, rm, cm);
        lemma_idx_decomposition(w, rm, c);
        lemma_idx_decomposition(w, rm, cp);
        lemma_idx_decomposition(w, r, cm);
        lemma_idx_decomposition(w, r, cp);
        lemma_idx_decomposition(w, rp, cm);
        lemma_idx_decomposition(w, rp, c);
        lemma_idx_decomposition(w, rp, cp);
        if block_cell(r0, c0, r, c) {
            assert(live_neighbors(s, w, h, r, c) == 3);
        } else {
            assert(live_neighbors(s, w, h, r, c) != 3);
        }
    }
    assert(step(s, w, h) =~= s);
}

} // verus!
