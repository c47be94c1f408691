//! Properties of chess move generation that hold in every Position.
use vstd::prelude::*;
use crate::interface::bitboard::lemma_ascending_exact;
use super::movegen::{lemma_bitboard_on_board, lemma_generated, lemma_mover_square};
use crate::interface::bitboard::ascending;
use super::moves::Move;
use super::position::{dist, move_name, move_read, ChessState, MoveRead, Position};
use super::moves::flag_letters;
use crate::interface::parse::{first_index, lemma_first_index_at, law_square_name_text, square_name};

verus! {

/// The flag that a Move without a flag letter is read with in the state: a
/// pawn moving two Ranks makes a double push, a pawn moving to the en
/// passant Square captures en passant, a king moving more than one File
/// castles towards the side it moves to, and any other Move is Normal.
pub open spec fn implied_flag_of(st: ChessState, src: int, tgt: int) -> int {
    let piece = st.at(src)->0 % 6;
    if piece == 0 && dist(src / 8, tgt / 8) == 2 {
        6
    } else if piece == 0 && st.en_passant == Some(tgt) {
        5
    } else if piece == 5 && dist(src % 8, tgt % 8) > 1 {
        if src > tgt {
            8
        } else {
            7
        }
    } else {
        0
    }
}

/// Reading the name of a Move of a piece of the state gives the Move back:
/// a promotion, or a Move whose flag is the one its Squares imply; a
/// castling Move of standard chess must go to the Square of the king's own
/// two-File step, which its name gives.
pub proof fn law_move_name_read(st: ChessState, src: int, tgt: int, f: int, frc: bool)
    requires
        0 <= src < 64,
        0 <= tgt < 64,
        0 <= f < 9,
        st.at(src) is Some,
        (1 <= f <= 4) || (f == implied_flag_of(st, src, tgt) && ((f != 7 && f != 8) || frc || tgt == (if f
            == 7 {
            src + 2
        } else {
            src - 2
        }))),
    ensures
        move_read(st, move_name(Move::packed(src, tgt, f), frc)) == MoveRead::Read(Move::packed(src, tgt, f)),
{
    let m = Move::packed(src, tgt, f);
    Move::lemma_packed(src, tgt, f);
    law_square_name_text(src, 8, 8);
    law_square_name_text(tgt, 8, 8);
    let a = square_name(src, 8);
    let b = square_name(tgt, 8);
    let t = move_name(m, frc);
    if 1 <= f <= 4 {
        let c = flag_letters()[f];
        assert(t == a + b + seq![c]);
        assert(t.subrange(0, 2) =~= a);
        assert(t.subrange(2, 4) =~= b);
        assert(t[4] == c);
        lemma_first_index_at(flag_letters(), c, f);
        assert(first_index(flag_letters(), t[4]) == f);
    } else {
        assert(t == a + b);
        assert(t.subrange(0, 2) =~= a);
        assert(t.subrange(2, 4) =~= b);
    }
}

/// The generated Moves of a Position are exactly its legal Moves, each
/// once: every generated Move follows the rules of movement of its piece
/// and leaves no king of the side to move attacked, and every such Move is
/// generated.
pub proof fn law_moves_are_the_legal_moves(pos: Position)
    ensures
        forall|m: Move| #[trigger] pos@.moves().contains(m) ==> pos@.legal(m),
        forall|m: Move| #[trigger] pos@.legal(m) ==> pos@.moves().contains(m),
        pos@.moves().no_duplicates(),
{
    let st = pos@;
    let side = st.side as int;
    lemma_bitboard_on_board(pos.color_bbs@[side]);
    assert(st.colors[side] == pos.color_bbs@[side]@);
    let friends = st.colors[side];
    lemma_ascending_exact(friends);
    let srcs = ascending(friends);
    assert forall|k: int| 0 <= k < srcs.len() implies 0 <= #[trigger] srcs[k] < 64 by {
        assert(friends.contains(srcs[k]));
    }
    lemma_generated(st, srcs);
    assert forall|m: Move| #[trigger] st.legal(m) implies st.moves().contains(m) by {
        lemma_mover_square(st, m.source_index());
        assert(srcs.to_set().contains(m.source_index()));
    }
}

} // verus!
