//! The two-valued cell state and the per-cell transition rule.

use vstd::prelude::*;

verus! {

/// A cell of the grid: either dead or alive.
#[derive(Clone, Copy, Debug, PartialEq, Eq, Structural)]
pub enum Cell {
    Dead,
    Alive,
}

/// The numeric weight of a cell, used for neighbor counting:
/// a dead cell counts 0, a live cell counts 1.
pub open spec fn cell_value(c: Cell) -> int {
    if c is Alive {
        1
    } else {
        0
    }
}

/// The opposite state of a cell.
pub open spec fn toggled(c: Cell) -> Cell {
    match c {
        Cell::Alive => Cell::Dead,
        Cell::Dead => Cell::Alive,
    }
}

/// The transition rule of the automaton: the next state of a cell from its
/// current state and its live-neighbor count `n`.
///
/// A live cell survives exactly when it has two or three live neighbors;
/// a dead cell comes alive exactly when it has three live neighbors.
pub open spec fn next_cell(current: Cell, n: int) -> Cell {
    if current is Alive {
        if n == 2 || n == 3 {
            Cell::Alive
        } else {
            Cell::Dead
        }
    } else {
        if n == 3 {
            Cell::Alive
        } else {
            Cell::Dead
        }
    }
}

impl Cell {
    /// The numeric weight of this cell as a machine integer.
    pub fn value(self) -> (v: u8)
        ensures
            v as int == cell_value(self),
            v <= 1,
    {
        match self {
            Cell::Alive => 1,
            Cell::Dead => 0,
        }
    }

    /// Flip this cell between dead and alive.
    pub fn toggle(&mut self)
        ensures
            *final(self) == toggled(*old(self)),
    {
        *self = match *self {
            Cell::Alive => Cell::Dead,
            Cell::Dead => Cell::Alive,
        };
    }
}

/// The transition rule as executable code.
pub fn transition(current: Cell, live_neighbors: u8) -> (next: Cell)
    ensures
        next == next_cell(current, live_neighbors as int),
{
    match current {
        Cell::Alive => {
            if live_neighbors == 2 || live_neighbors == 3 {
                Cell::Alive
            } else {
                Cell::Dead
            }
        },
        Cell::Dead => {
            if live_neighbors == 3 {
                Cell::Alive
            } else {
                Cell::Dead
            }
        },
    }
}

/// The transition rule agrees with the rule table, row by row: a live cell
/// with fewer than two live neighbors dies, a live cell with two or three
/// survives, a live cell with more than three dies, a dead cell with exactly
/// three comes alive, and any other dead cell stays dead (unchanged).
pub proof fn lemma_transition_table(current: Cell, n: int)
    requires
        0 <= n <= 8,
    ensures
        current is Alive && n < 2 ==> next_cell(current, n) is Dead,
        current is Alive && (n == 2 || n == 3) ==> next_cell(current, n) is Alive,
        current is Alive && n > 3 ==> next_cell(current, n) is Dead,
        current is Dead && n == 3 ==> next_cell(current, n) is Alive,
        current is Dead && n != 3 ==> next_cell(current, n) == current,
{
}

} // verus!
