
pub mod cell;
pub mod glider;
pub mod grid;
pub mod laws;
pub mod universe;

pub use cell::Cell;
pub use grid::Grid;
pub use universe::{GridError, Universe};
