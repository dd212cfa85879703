use game_of_life::GridError;
use game_of_life::Universe;

/// Reads the whole working generation as a vector of booleans, row-major.
fn snapshot(g: &Universe) -> Vec<bool> {
    let mut out = Vec::new();
    for r in 0..g.height() {
        for c in 0..g.width() {
            out.push(g.cell(r, c).unwrap());
        }
    }
    out
}

/// Kills every cell of the working generation through the public API.
fn clear_all(g: &mut Universe) {
    for r in 0..g.height() {
        for c in 0..g.width() {
            if g.cell(r, c).unwrap() {
                g.toggle_cell(r, c).unwrap();
            }
        }
    }
}

/// Sets the listed cells of a cleared grid alive.
fn stamp(g: &mut Universe, cells: &[(u32, u32)]) {
    for &(r, c) in cells {
        if !g.cell(r, c).unwrap() {
            g.toggle_cell(r, c).unwrap();
        }
    }
}

/// Collects the coordinates of the live cells of the working generation.
fn live_cells(g: &Universe) -> Vec<(u32, u32)> {
    let mut out = Vec::new();
    for r in 0..g.height() {
        for c in 0..g.width() {
            if g.cell(r, c).unwrap() {
                out.push((r, c));
            }
        }
    }
    out
}

#[test]
fn new_rejects_zero_width() {
    assert_eq!(Universe::new(0, 5).err(), Some(GridError::InvalidDimensions));
}

#[test]
fn new_rejects_zero_height() {
    assert_eq!(Universe::new(5, 0).err(), Some(GridError::InvalidDimensions));
}

#[test]
fn new_reports_dimensions() {
    let g = Universe::new(7, 5).unwrap();
    assert_eq!(g.width(), 7);
    assert_eq!(g.height(), 5);
}

#[test]
fn new_seeds_both_buffers_identically() {
    let g = Universe::new(4, 4).unwrap();
    let shown = g.cells();
    let working = g.get_cells();
    assert_eq!(shown.len(), 16);
    assert_eq!(working.len(), 16);
    for i in 0..16 {
        assert_eq!(shown.contains(i), working.contains(i));
    }
}

#[test]
fn new_seed_is_mixed() {
    let g = Universe::new(16, 16).unwrap();
    let live = live_cells(&g).len();
    assert!(live > 0);
    assert!(live < 256);
}

#[test]
fn reset_keeps_buffers_identical() {
    let mut g = Universe::new(6, 6).unwrap();
    g.toggle_cell(2, 2).unwrap();
    g.reset();
    let shown = g.cells();
    let working = g.get_cells();
    for i in 0..36 {
        assert_eq!(shown.contains(i), working.contains(i));
    }
}

#[test]
fn reset_varies_between_calls() {
    let mut g = Universe::new(8, 8).unwrap();
    g.reset();
    let first = snapshot(&g);
    g.reset();
    let second = snapshot(&g);
    assert_ne!(first, second);
}

#[test]
fn get_index_is_row_major() {
    let g = Universe::new(7, 5).unwrap();
    assert_eq!(g.get_index(0, 0), 0);
    assert_eq!(g.get_index(2, 3), 17);
    assert_eq!(g.get_index(4, 6), 34);
}

#[test]
fn cell_rejects_out_of_range() {
    let g = Universe::new(3, 3).unwrap();
    assert_eq!(g.cell(3, 0).err(), Some(GridError::IndexOutOfRange));
    assert_eq!(g.cell(0, 3).err(), Some(GridError::IndexOutOfRange));
}

#[test]
fn toggle_rejects_out_of_range() {
    let mut g = Universe::new(3, 3).unwrap();
    let before = snapshot(&g);
    assert_eq!(g.toggle_cell(3, 0).err(), Some(GridError::IndexOutOfRange));
    assert_eq!(g.toggle_cell(0, 3).err(), Some(GridError::IndexOutOfRange));
    assert_eq!(snapshot(&g), before);
}

#[test]
fn toggle_twice_restores_cell_and_grid() {
    let mut g = Universe::new(4, 4).unwrap();
    let before = snapshot(&g);
    let was = g.cell(1, 2).unwrap();
    g.toggle_cell(1, 2).unwrap();
    assert_eq!(g.cell(1, 2).unwrap(), !was);
    for r in 0..4 {
        for c in 0..4 {
            if (r, c) != (1, 2) {
                assert_eq!(g.cell(r, c).unwrap(), before[(r * 4 + c) as usize]);
            }
        }
    }
    g.toggle_cell(1, 2).unwrap();
    assert_eq!(snapshot(&g), before);
}

#[test]
fn dead_grid_stays_dead() {
    let mut g = Universe::new(4, 4).unwrap();
    clear_all(&mut g);
    g.tick();
    assert!(live_cells(&g).is_empty());
    g.tick();
    assert!(live_cells(&g).is_empty());
}

#[test]
fn lone_cell_dies_of_underpopulation() {
    let mut g = Universe::new(5, 5).unwrap();
    clear_all(&mut g);
    stamp(&mut g, &[(2, 2)]);
    g.tick();
    assert!(live_cells(&g).is_empty());
}

#[test]
fn center_of_three_by_three_dies() {
    let mut g = Universe::new(3, 3).unwrap();
    clear_all(&mut g);
    stamp(&mut g, &[(1, 1)]);
    g.tick();
    assert!(live_cells(&g).is_empty());
}

#[test]
fn block_is_a_still_life() {
    let mut g = Universe::new(6, 6).unwrap();
    clear_all(&mut g);
    let block = [(2, 2), (2, 3), (3, 2), (3, 3)];
    stamp(&mut g, &block);
    let before = snapshot(&g);
    g.tick();
    assert_eq!(snapshot(&g), before);
    g.tick();
    assert_eq!(snapshot(&g), before);
}

#[test]
fn blinker_oscillates_with_period_two() {
    let mut g = Universe::new(5, 5).unwrap();
    clear_all(&mut g);
    stamp(&mut g, &[(2, 1), (2, 2), (2, 3)]);
    g.tick();
    assert_eq!(live_cells(&g), vec![(1, 2), (2, 2), (3, 2)]);
    g.tick();
    assert_eq!(live_cells(&g), vec![(2, 1), (2, 2), (2, 3)]);
}

#[test]
fn tick_updates_displayed_buffer() {
    let mut g = Universe::new(5, 5).unwrap();
    clear_all(&mut g);
    stamp(&mut g, &[(2, 1), (2, 2), (2, 3)]);
    g.tick();
    let shown = g.cells();
    for r in 0..5u32 {
        for c in 0..5u32 {
            let alive = shown.contains((r * 5 + c) as usize);
            assert_eq!(alive, [(1, 2), (2, 2), (3, 2)].contains(&(r, c)));
        }
    }
}

#[test]
fn set_glider_stamps_the_canonical_shape() {
    let mut g = Universe::new(6, 6).unwrap();
    clear_all(&mut g);
    stamp(&mut g, &[(1, 1), (5, 5)]);
    g.set_glider(3, 3);
    let mut expected = vec![(2, 2), (3, 3), (3, 4), (4, 2), (4, 3), (5, 5)];
    expected.sort();
    assert_eq!(live_cells(&g), expected);
}

#[test]
fn set_glider_near_top_or_left_edge_is_a_no_op() {
    let mut g = Universe::new(6, 6).unwrap();
    let before = snapshot(&g);
    g.set_glider(1, 3);
    assert_eq!(snapshot(&g), before);
    g.set_glider(3, 1);
    assert_eq!(snapshot(&g), before);
    g.set_glider(0, 0);
    assert_eq!(snapshot(&g), before);
}

#[test]
fn set_glider_near_bottom_or_right_edge_is_a_no_op() {
    let mut g = Universe::new(6, 6).unwrap();
    let before = snapshot(&g);
    g.set_glider(5, 3);
    assert_eq!(snapshot(&g), before);
    g.set_glider(3, 5);
    assert_eq!(snapshot(&g), before);
}

#[test]
fn blinker_wraps_across_the_top_edge() {
    let mut g = Universe::new(5, 5).unwrap();
    clear_all(&mut g);
    stamp(&mut g, &[(0, 1), (0, 2), (0, 3)]);
    g.tick();
    assert_eq!(live_cells(&g), vec![(0, 2), (1, 2), (4, 2)]);
    g.tick();
    assert_eq!(live_cells(&g), vec![(0, 1), (0, 2), (0, 3)]);
}

#[test]
fn glider_crosses_the_toroidal_edge() {
    let mut g = Universe::new(8, 8).unwrap();
    clear_all(&mut g);
    g.set_glider(4, 4);
    let before = snapshot(&g);
    for _ in 0..16 {
        g.tick();
    }
    for r in 0..8u32 {
        for c in 0..8u32 {
            let src = (((r + 4) % 8) * 8 + (c + 4) % 8) as usize;
            assert_eq!(g.cell(r, c).unwrap(), before[src]);
        }
    }
}

#[test]
fn glider_translates_one_cell_diagonally_every_four_ticks() {
    let mut g = Universe::new(8, 8).unwrap();
    clear_all(&mut g);
    g.set_glider(4, 4);
    let before = snapshot(&g);
    for _ in 0..4 {
        g.tick();
    }
    for r in 0..8u32 {
        for c in 0..8u32 {
            let src = (((r + 7) % 8) * 8 + (c + 7) % 8) as usize;
            assert_eq!(g.cell(r, c).unwrap(), before[src]);
        }
    }
}
