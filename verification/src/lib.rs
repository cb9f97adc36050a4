//! A tile-merging puzzle in the manner of 2048, with its rules proved.
//!
//! - `grid`: a rectangular grid of values, stored row by row.
//! - `tiles`: the rule that collapses one line of tiles, as mathematics.
//! - `moves`: what the four swipes do to the cells of a board, and what holds of them.
//! - `board`: the board itself, which collapses in four directions and takes new tiles.
//! - `chance`: the random draws behind a new tile.
//! - `game`: a board and the state around it, advanced one event at a time.
//! - `input`: what the keys do in the menu and in a running game.
//! - `screen`: what is drawn where on a terminal of a given size.

pub mod board;
pub mod chance;
pub mod game;
pub mod grid;
pub mod input;
pub mod moves;
pub mod screen;
pub mod tiles;
