use game_of_life::cell::{transition, Cell};
use game_of_life::universe::{GridError, Universe};

#[test]
fn default_construction_dimensions() {
    let u = Universe::new();
    assert_eq!(u.get_width(), 128);
    assert_eq!(u.get_height(), 128);
    assert_eq!(u.get_cells_internal().len(), 128 * 128);
}

#[test]
fn default_construction_is_deterministic() {
    let a = Universe::new();
    let b = Universe::new();
    assert_eq!(a.get_width(), b.get_width());
    assert_eq!(a.get_height(), b.get_height());
    assert_eq!(a.get_cells_internal(), b.get_cells_internal());
}

#[test]
fn seeding_law() {
    let u = Universe::new();
    let cells = u.get_cells_internal();
    assert_eq!(cells.len(), 16384);
    for (i, &cell) in cells.iter().enumerate() {
        let expected = if i % 3 == 0 || i % 7 == 0 {
            Cell::Alive
        } else {
            Cell::Dead
        };
        assert_eq!(cell, expected, "cell at linear index {}", i);
    }
}

#[test]
fn transition_rule_table() {
    for n in 0u8..=8 {
        let from_alive = transition(Cell::Alive, n);
        let from_dead = transition(Cell::Dead, n);
        if n < 2 {
            assert_eq!(from_alive, Cell::Dead);
        } else if n == 2 || n == 3 {
            assert_eq!(from_alive, Cell::Alive);
        } else {
            assert_eq!(from_alive, Cell::Dead);
        }
        if n == 3 {
            assert_eq!(from_dead, Cell::Alive);
        } else {
            assert_eq!(from_dead, Cell::Dead);
        }
    }
}

#[test]
fn toggle_flips_exactly_one_cell() {
    let mut u = Universe::new();
    let before = u.get_cells_internal().to_vec();
    assert!(u.toggle_cell(5, 9).is_ok());
    let after = u.get_cells_internal().to_vec();
    let idx: usize = 5 * 128 + 9;
    for i in 0..before.len() {
        if i == idx {
            assert_ne!(after[i], before[i]);
        } else {
            assert_eq!(after[i], before[i]);
        }
    }
    assert!(u.toggle_cell(5, 9).is_ok());
    assert_eq!(u.get_cells_internal(), before.as_slice());
}

#[test]
fn out_of_bounds_toggle_signals_fault_and_changes_nothing() {
    let mut u = Universe::new();
    let before = u.get_cells_internal().to_vec();
    let height = u.get_height();
    assert_eq!(u.toggle_cell(height, 0), Err(GridError::OutOfBounds));
    assert_eq!(u.toggle_cell(0, u.get_width()), Err(GridError::OutOfBounds));
    assert_eq!(u.get_cells_internal(), before.as_slice());
    assert_eq!(u.get_width(), 128);
    assert_eq!(u.get_height(), 128);
}

#[test]
fn cell_at_reads_and_rejects_out_of_bounds() {
    let u = Universe::new();
    assert_eq!(u.cell_at(0, 0), Ok(Cell::Alive));
    assert_eq!(u.cell_at(0, 1), Ok(Cell::Dead));
    assert_eq!(u.cell_at(128, 0), Err(GridError::OutOfBounds));
    assert_eq!(u.cell_at(0, 128), Err(GridError::OutOfBounds));
}

#[test]
fn zero_dimension_is_rejected() {
    let mut u = Universe::new();
    let before = u.get_cells_internal().to_vec();
    assert_eq!(u.set_width(0), Err(GridError::ZeroDimension));
    assert_eq!(u.set_height(0), Err(GridError::ZeroDimension));
    assert_eq!(u.get_width(), 128);
    assert_eq!(u.get_height(), 128);
    assert_eq!(u.get_cells_internal(), before.as_slice());
}

#[test]
fn resize_keeps_buffer_length_invariant() {
    let mut u = Universe::new();
    assert!(u.set_width(5).is_ok());
    assert_eq!(u.get_cells_internal().len(), 5 * 128);
    assert!(u.set_height(7).is_ok());
    assert_eq!(u.get_cells_internal().len(), 5 * 7);
    assert!(u.toggle_cell(6, 4).is_ok());
    assert_eq!(u.get_cells_internal().len(), 5 * 7);
}

#[test]
fn resize_discards_state() {
    let mut u = Universe::new();
    assert!(u.toggle_cell(1, 1).is_ok());
    assert!(u.set_width(64).is_ok());
    assert_eq!(u.get_cells_internal().len(), 64 * 128);
    for &cell in u.get_cells_internal() {
        assert_eq!(cell, Cell::Dead);
    }
}

#[test]
fn set_alive_batch_is_idempotent() {
    let coords = [(0u32, 0u32), (2, 3), (2, 3), (4, 1)];
    let mut once = Universe::new();
    assert!(once.set_width(5).is_ok());
    assert!(once.set_height(5).is_ok());
    assert!(once.toggle_cell(1, 1).is_ok());
    let mut twice = Universe::new();
    assert!(twice.set_width(5).is_ok());
    assert!(twice.set_height(5).is_ok());
    assert!(twice.toggle_cell(1, 1).is_ok());
    assert!(once.set_cells_internal(&coords).is_ok());
    assert!(twice.set_cells_internal(&coords).is_ok());
    assert!(twice.set_cells_internal(&coords).is_ok());
    assert_eq!(once.get_cells_internal(), twice.get_cells_internal());
    assert_eq!(once.cell_at(2, 3), Ok(Cell::Alive));
    assert_eq!(once.cell_at(1, 1), Ok(Cell::Alive));
    assert_eq!(once.cell_at(3, 3), Ok(Cell::Dead));
}

#[test]
fn set_alive_batch_rejects_out_of_bounds_and_changes_nothing() {
    let mut u = Universe::new();
    assert!(u.set_width(5).is_ok());
    assert!(u.set_height(5).is_ok());
    let before = u.get_cells_internal().to_vec();
    let coords = [(1u32, 1u32), (5, 0)];
    assert_eq!(u.set_cells_internal(&coords), Err(GridError::OutOfBounds));
    assert_eq!(u.get_cells_internal(), before.as_slice());
}
