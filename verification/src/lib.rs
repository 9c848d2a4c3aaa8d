//! Conway's Game of Life on a fixed-topology toroidal grid.
//!
//! A [`universe::Universe`] owns the grid dimensions and the flat, row-major
//! cell buffer, and steps it one generation at a time under the standard
//! birth/survival rules with toroidal wraparound. The transition relation and
//! the grid invariants are stated as specifications on the public functions;
//! general properties of the rules live in [`laws`].

pub mod cell;
pub mod laws;
pub mod universe;
