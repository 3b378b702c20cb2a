//! Wireworld: a four-state cellular automaton on a toroidal grid.
//!
//! The crate is split into the cell alphabet and its transition rule
//! ([`cell`]), the mathematical model of a grid together with the laws that
//! hold of it ([`grid`]), sequences of operations on that model ([`ops`]),
//! and the executable engine ([`world`]) whose every operation is specified
//! against the model.

pub mod cell;
pub mod grid;
pub mod ops;
pub mod world;

pub use cell::Cell;
pub use grid::Grid;
pub use ops::Op;
pub use world::World;
