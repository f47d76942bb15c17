//! Rules engine for Connect Four: a fixed grid, token placement under
//! gravity, four-in-a-row detection and a match controller that alternates
//! two players until one wins or the board is full.

pub mod token;
pub mod error;
pub mod grid;
pub mod area;
pub mod laws;
pub mod referee;
pub mod engine;
pub mod text;
pub mod snapshot;
pub mod random_bot;

pub use crate::area::Area;
pub use crate::engine::{Engine, Interface};
pub use crate::random_bot::RandomBot;
pub use crate::referee::Turn;
pub use crate::error::Error;
pub use crate::grid::{AREA_COLS, AREA_ROWS, VICTORY_NUMBER};
pub use crate::token::State;
