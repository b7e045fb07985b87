//! A solver for a tile-placement board game: tiles carry a color and a shape,
//! two tiles combine when they share exactly one of the two, and a move drops a
//! run of combinable tiles onto a sparse grid so that every line it touches
//! stays pairwise combinable.  The solver enumerates every combination a hand
//! offers, searches the board for every spot where one could legally land,
//! scores each candidate, and plays the best one.

pub mod bag;
pub mod board;
pub mod player;
pub mod rules;
pub mod tile;
