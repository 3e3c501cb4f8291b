//! Rule engine of a tile-matching puzzle.
//!
//! A rectangular board holds tiles, each with a colour and a shape. A player
//! moves a cursor and marks tiles; once enough tiles are marked the engine
//! decides whether they form a match, removes matched tiles and lets the
//! remaining ones settle under gravity.

pub mod board;
pub mod cursor;
pub mod gravity;
pub mod laws;
pub mod random;
pub mod registry;
pub mod rules;
pub mod session;
pub mod state;
pub mod storage;
pub mod tiles;
