//! A verified minesweeper board engine.
//!
//! The board owns a dense row-major grid of cells. Mines are placed at
//! construction (randomly, or from a textual layout for tests), adjacency
//! counts are computed once, and the only mutations afterwards are the
//! reveal and flag commands. Renderers are pure projections of the grid.

pub mod app;
pub mod cascade;
pub mod cell;
pub mod field;
pub mod grid;
pub mod render;
mod rng;

pub use app::App;
pub use cell::{FieldCell, FieldCellState, FieldCellType};
pub use field::{Field, FieldError, GameConfig, RevealOutcome};
