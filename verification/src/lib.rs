//! A verified board-game library: bitboards, positions and move generation for
//! Ataxx, Isolation and chess.
pub mod bits;
pub mod games;
pub mod interface;
pub mod search;
pub mod stats;
