//! A discrete-time cellular-automaton engine: Conway's Game of Life on a
//! fixed-size toroidal (wrap-around) grid.
//!
//! The engine owns the grid state, advances it one generation at a time
//! according to the fixed neighbor-count rules, and exposes read/write access
//! to individual cells plus a textual rendering of the whole grid.

pub mod cell;
pub mod universe;
