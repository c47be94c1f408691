//! Isolation: an 8x6 board of removable tiles and two pawns.
mod board;
mod laws;
mod movegen;
mod moves;
mod piece;
mod position;

pub use board::{
    BitBoard, File, Rank, Square, FILES, FIRST_FILE_BITS, FIRST_RANK_BITS, RANKS, SQUARES,
    UNIVERSE_BITS,
};
pub use piece::{color_name, color_text, colored_piece_text, piece_text, Color, ColoredPiece, Piece};
pub use moves::{law_move_name_text, move_name, move_text, near, stretch, zone, Move, MoveParseError};
pub use position::{fen, law_hash_side_flip, law_picture_cells, picture_place, position_hash, tile_moves, Fen, Position, PositionParseError, State};
pub use movegen::{law_bulk_counting_agrees, lemma_moves_len, lemma_play_on_board, perft, perft_count, perft_sum};
pub use laws::{law_moves_distinct, law_no_free_tile_no_moves, law_play_removes_tile, law_winner_is_last_mover};
