//! Conway's Game of Life on a bounded rectangular grid.
//!
//! - [`grid`] is the engine: it owns the cells and advances them one
//!   generation at a time. Cells outside the grid are permanently dead.
//! - [`pattern`] holds a catalog of named shapes and stamps them onto a
//!   grid before a run.
//! - [`render`] lists the squares that a presenter paints for a grid.
//! - [`laws`] states what follows from the rule: its truth table, and how
//!   an empty grid, a blinker and a glider evolve.

pub mod grid;
pub mod laws;
pub mod pattern;
pub mod render;
