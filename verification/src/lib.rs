//! Hexagonal minesweeper: minefield generation, neighbour counts, the
//! per-tile marking state machine and the flood-fill reveal, with their
//! contracts proved.
//!
//! The grid geometry is not part of this crate: whoever sets a game up
//! hands in, for every tile, the coordinates of the tile's neighbours.
//!
//! - `tile`: one tile and its markers.
//! - `grid`: coordinates and tile indices.
//! - `model`: the minefield as a mathematical value, and what a reveal and
//!   a click do to it.
//! - `reach`: facts about what a reveal reaches.
//! - `laws`: what holds of every field and every series of clicks.
//! - `sample`: drawing the places of the mines.
//! - `field`, `setup`, `flood`, `click`: the minefield in play.
//! - `session`: the handle for the one game in progress.
//! - `state`: application states, difficulty and settings.

pub mod click;
pub mod field;
pub mod flood;
pub mod grid;
pub mod laws;
pub mod model;
pub mod reach;
pub mod sample;
pub mod session;
pub mod setup;
pub mod state;
pub mod tile;
