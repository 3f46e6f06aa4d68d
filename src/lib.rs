//! Level data model of a box-pushing grid puzzle: tile kinds and their
//! presentation, grid maps, the level-text parser, the move-replay builder,
//! the level database and the grid-to-screen position mapping.

pub mod tile;
pub mod text;
pub mod grid;
pub mod parser;
pub mod database;
pub mod replay;
pub mod spawn;
