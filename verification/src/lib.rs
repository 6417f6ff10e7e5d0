//! A verified engine for Conway's Game of Life on a fixed-size rectangular
//! grid with clipped (non-wrapping) boundaries.
//!
//! The engine owns the grid, counts live neighbors, advances the automaton in
//! discrete generations driven by an accumulated time debt, and is gated by a
//! one-way run flag. Rendering and windowing live outside the library and only
//! read the grid.

pub mod engine;
pub mod grid;
