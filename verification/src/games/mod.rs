//! Board representations of specific games.
pub mod ataxx;
pub mod chess;
pub mod isolation;
