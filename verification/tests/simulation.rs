use game_of_life::cell::Cell;
use game_of_life::universe::Universe;

fn empty_grid(width: u32, height: u32) -> Universe {
    let mut u = Universe::new();
    assert!(u.set_width(width).is_ok());
    assert!(u.set_height(height).is_ok());
    u
}

fn alive_positions(u: &Universe) -> Vec<(u32, u32)> {
    let width = u.get_width();
    let mut alive = Vec::new();
    for (i, &cell) in u.get_cells_internal().iter().enumerate() {
        if cell == Cell::Alive {
            alive.push((i as u32 / width, i as u32 % width));
        }
    }
    alive
}

#[test]
fn blinker_oscillates_with_period_two() {
    let mut u = empty_grid(5, 5);
    let horizontal = [(2u32, 1u32), (2, 2), (2, 3)];
    assert!(u.set_cells_internal(&horizontal).is_ok());
    assert_eq!(alive_positions(&u), vec![(2, 1), (2, 2), (2, 3)]);
    u.tick();
    assert_eq!(alive_positions(&u), vec![(1, 2), (2, 2), (3, 2)]);
    u.tick();
    assert_eq!(alive_positions(&u), vec![(2, 1), (2, 2), (2, 3)]);
}

#[test]
fn lone_cell_dies_and_block_survives() {
    let mut lone = empty_grid(6, 6);
    assert!(lone.toggle_cell(3, 3).is_ok());
    lone.tick();
    assert_eq!(alive_positions(&lone), vec![]);

    let mut block = empty_grid(6, 6);
    let square = [(1u32, 1u32), (1, 2), (2, 1), (2, 2)];
    assert!(block.set_cells_internal(&square).is_ok());
    block.tick();
    assert_eq!(alive_positions(&block), vec![(1, 1), (1, 2), (2, 1), (2, 2)]);
}

#[test]
fn neighbor_counting_wraps_around_edges() {
    // One live cell in the corner (0, 0): on the torus it neighbors the
    // opposite corner (3, 3) and every other cell adjacent under wrapping.
    let mut u = empty_grid(4, 4);
    assert!(u.toggle_cell(0, 0).is_ok());
    assert_eq!(u.live_neighbor_count(3, 3), 1);
    assert_eq!(u.live_neighbor_count(0, 1), 1);
    assert_eq!(u.live_neighbor_count(1, 0), 1);
    assert_eq!(u.live_neighbor_count(3, 0), 1);
    assert_eq!(u.live_neighbor_count(0, 3), 1);
    assert_eq!(u.live_neighbor_count(1, 1), 1);
    assert_eq!(u.live_neighbor_count(3, 1), 1);
    assert_eq!(u.live_neighbor_count(1, 3), 1);
    // The live cell does not count itself.
    assert_eq!(u.live_neighbor_count(0, 0), 0);
    // A cell two steps away sees nothing.
    assert_eq!(u.live_neighbor_count(2, 2), 0);
}

#[test]
fn three_cells_in_a_wrapped_column_blink() {
    // A vertical line through the top edge of a 5-by-5 torus: rows 4, 0, 1
    // in column 2 form a blinker across the boundary.
    let mut u = empty_grid(5, 5);
    let line = [(4u32, 2u32), (0, 2), (1, 2)];
    assert!(u.set_cells_internal(&line).is_ok());
    u.tick();
    assert_eq!(alive_positions(&u), vec![(0, 1), (0, 2), (0, 3)]);
    u.tick();
    assert_eq!(alive_positions(&u), vec![(0, 2), (1, 2), (4, 2)]);
}

#[test]
fn render_shapes_the_text() {
    let mut u = empty_grid(3, 2);
    assert!(u.toggle_cell(0, 1).is_ok());
    assert!(u.toggle_cell(1, 2).is_ok());
    let text = u.render();
    assert_eq!(text, "\u{25fb}\u{25fc}\u{25fb}\n\u{25fb}\u{25fb}\u{25fc}\n");
}

#[test]
fn render_of_empty_grid_is_all_dead_glyphs() {
    let u = empty_grid(5, 5);
    let text = u.render();
    let line = "\u{25fb}".repeat(5) + "\n";
    assert_eq!(text, line.repeat(5));
}

#[test]
fn render_twice_without_mutation_is_identical() {
    let mut u = Universe::new();
    assert_eq!(u.render(), u.render());
    u.tick();
    assert_eq!(u.render(), u.render());
}

#[test]
fn render_reflects_the_seeded_grid() {
    let u = Universe::new();
    let text = u.render();
    let lines: Vec<&str> = text.split_terminator('\n').collect();
    assert_eq!(lines.len(), 128);
    for (r, line) in lines.iter().enumerate() {
        for (c, glyph) in line.chars().enumerate() {
            let i: usize = r * 128 + c;
            let expected = if i % 3 == 0 || i % 7 == 0 {
                '\u{25fc}'
            } else {
                '\u{25fb}'
            };
            assert_eq!(glyph, expected);
        }
        assert_eq!(line.chars().count(), 128);
    }
}
