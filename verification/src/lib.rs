//! One-dimensional, two-state, three-neighbour cellular automata on a finite
//! row with fixed boundary cells.
//!
//! - [`rule`]: the eight-entry rule table and its Wolfram number.
//! - [`evolution`]: the mathematical model of rows, generations and
//!   histories, and the laws that hold of them.
//! - [`grid`]: the history grid, stored by `ndarray`.
//! - [`ca`]: the automaton, which computes and keeps its history.
//! - [`enumerate`]: every binary row of a width, in order.
//! - [`driver`]: one automaton for every binary row of a width, the rows
//!   handed out in chunks.
//! - [`error`]: what a request can be refused for.

pub mod ca;
pub mod driver;
pub mod enumerate;
pub mod error;
pub mod evolution;
pub mod grid;
pub mod rule;

pub use crate::ca::CA;
pub use crate::error::CaError;
pub use crate::rule::Rule;
