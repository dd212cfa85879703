use game_of_life::Universe;

/// Kills every cell of the working generation through the public API.
fn clear_all(g: &mut Universe) {
    for r in 0..g.height() {
        for c in 0..g.width() {
            if g.cell(r, c).unwrap() {
                g.toggle_cell(r, c).unwrap();
            }
        }
    }
}

#[test]
fn render_draws_one_glyph_per_cell_and_a_newline_per_row() {
    let mut g = Universe::new(2, 2).unwrap();
    clear_all(&mut g);
    g.tick();
    assert_eq!(g.render(), "\u{25fb}\u{25fb}\n\u{25fb}\u{25fb}\n");
}

#[test]
fn render_shows_the_generation_computed_by_tick() {
    let mut g = Universe::new(5, 5).unwrap();
    clear_all(&mut g);
    for &(r, c) in &[(2, 1), (2, 2), (2, 3)] {
        g.toggle_cell(r, c).unwrap();
    }
    g.tick();
    let d = '\u{25fb}';
    let a = '\u{25fc}';
    let blank: String = format!("{}{}{}{}{}\n", d, d, d, d, d);
    let mid: String = format!("{}{}{}{}{}\n", d, d, a, d, d);
    let expected = format!("{}{}{}{}{}", blank, mid, mid, mid, blank);
    assert_eq!(g.render(), expected);
}

#[test]
fn render_matches_the_exported_buffer_not_pending_edits() {
    let mut g = Universe::new(3, 3).unwrap();
    clear_all(&mut g);
    g.tick();
    g.toggle_cell(1, 1).unwrap();
    assert!(g.cell(1, 1).unwrap());
    let d = '\u{25fb}';
    let expected = format!("{}{}{}\n{}{}{}\n{}{}{}\n", d, d, d, d, d, d, d, d, d);
    assert_eq!(g.render(), expected);
}
