//! Ataxx: a 7x7 board, Black and White stones that clone or jump, and
//! blockers.
mod board;
mod laws;
mod movegen;
mod moves;
mod perft;
mod piece;
mod position;

pub use board::{
    BitBoard, File, Rank, Square, FILES, FIRST_FILE_BITS, FIRST_RANK_BITS, RANKS, SQUARES,
    UNIVERSE_BITS,
};
pub use moves::{double, near, ring, single, singles, stretch, zone, Move};
pub use piece::{Color, ColoredPiece, Piece};
pub use position::{fen, jumps, law_hash_side_flip, law_picture_cells, picture_place, position_hash, Fen, Position, PositionParseError, State};
pub use moves::{law_move_name_text, move_name, move_text, pass_text, MoveParseError};
pub use piece::{color_identifier, color_name, color_text, colored_piece_text, piece_text, ColorParseError, PieceParseError};
pub use perft::{law_bulk_counting_agrees, perft, perft_count, perft_divide, perft_sum};
pub use laws::{law_moves_distinct, law_moves_exist, law_pass_keeps_pieces, law_pass_twice, law_play_stones, law_play_well_formed, law_singles_union, law_winner_by_counts, law_winner_decided};
