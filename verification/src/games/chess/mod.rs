//! Chess: the 8x8 board, its pieces and moves.
mod attacks;
mod board;
mod castling;
mod laws;
mod lines;
mod movegen;
mod moves;
mod piece;
mod position;

pub use board::{
    BitBoard, File, Rank, Square, FILES, FIRST_FILE_BITS, FIRST_RANK_BITS, RANKS, SQUARES,
    UNIVERSE_BITS,
};
pub use piece::{color_name, color_text, colored_piece_letters, letter_text, piece_letters, Color, ColoredPiece, Piece};
pub use lines::{anti_diagonal_of, anti_diagonal_set, between_set, diagonal_of, diagonal_set, direction_of, inside, shift_set, strictly_between, Direction};
pub use castling::{
    all_castling_letters, all_rook_letters, is_rook_letter, law_rook_letters, law_rook_letters_field, rook_letter_right, rook_letter_rights, byte_bit, castling_letters, castling_model, castling_text, is_upper, law_standard_castling_field, law_standard_letters, standard_rights, king_end, lemma_read_rights_stops, lower, path,
    read_rights, rook_end, update_of, CastlingModel, CastlingRead, CastlingRightsParseError, Dimension,
    Info, Rights, RightsRead, Side,
};
pub use moves::{flag_letters, Move, MoveFlag, MoveParseError};
pub use position::{dist, law_picture_cells, picture_place, law_play_castling_rights, law_play_clock_and_promotion, law_play_en_passant, lemma_without_elsewhere, move_name, move_read, MoveRead, chess_fen, lowest_of, placed_color, placed_kind, placed_where, square_index, ChessFen, ChessState, Position, PositionParseError};
pub use attacks::{aligned, bishop, gap, king, king_set, knight, knight_set, pawn_attack_set, pawn_attacks, queen, rook, slide_set};
pub use movegen::{double_push_rank, lemma_bitboard_on_board, lemma_moves_len, moves_to, pawn_dirs, promotion_rank, promotions_from, MoveGenerationInfo};
pub use laws::{implied_flag_of, law_move_name_read, law_moves_are_the_legal_moves};
