//! Chess Positions: the piece placement held by Color and by Piece, the
//! game metadata, and the playing of Moves.
use vstd::prelude::*;
use crate::interface::FENParsablePosition;
use crate::interface::art::{push_chars, push_rank_lines, push_side_label, rank_lines, side_label};
use core::ops::Not;
use crate::bits::below;
use super::board::{BitBoard, File, Square};
use super::castling::{
    castling_model, castling_text, king_end, rook_end, CastlingModel, CastlingRead,
    CastlingRightsParseError, Dimension, Info, Rights, Side,
};
use crate::interface::TypeParseError;
use crate::interface::bitboard::{ascending, bit_seq, lemma_bit_seq_len};
use crate::interface::parse::{
    bad_leading_square, chars_of, decimal, decimal_fits, field_is, parse_u8_field, piece_placement, placement,
    placement_error, plies_of, ply_count, slice_of, split, split_ranges, square_chars, square_name,
    square_text, string_of, widen, first_index, Placement, PiecePlacementParseError,
};
use vstd::string::StringSliceAdditionalSpecFns;
use super::moves::{flag_letters, Move, MoveFlag, MoveParseError};
use super::piece::{color_name, colored_piece_letters, Color, ColoredPiece, Piece};

verus! {

/// The abstract state of a chess game.
pub struct ChessState {
    /// The Squares of the pieces of each Color.
    pub colors: Seq<Set<int>>,
    /// The Squares of the pieces of each kind.
    pub pieces: Seq<Set<int>>,
    /// The Color to move.
    pub side: Color,
    /// The number of half-moves played.
    pub plies: int,
    /// The number of half-moves since the last capture or pawn Move.
    pub half_moves: int,
    /// The Square a pawn may capture en passant.
    pub en_passant: Option<int>,
    /// The game is Chess960.
    pub frc: bool,
    /// The castling information.
    pub castling: CastlingModel,
}

impl ChessState {
    /// The Squares of the ColoredPiece of index `cp`: its kind and its
    /// Color.
    pub open spec fn colored(self, cp: int) -> Set<int> {
        self.pieces[cp % 6].intersect(self.colors[cp / 6])
    }

    /// The first ColoredPiece, from index `k` on, found on the Square.
    pub open spec fn first_at(self, sq: int, k: int) -> Option<int>
        decreases 12 - k,
    {
        if k >= 12 || k < 0 {
            None
        } else if self.colored(k).contains(sq) {
            Some(k)
        } else {
            self.first_at(sq, k + 1)
        }
    }

    /// The ColoredPiece found on the Square, looking at the White pieces
    /// first, each Color in the order of the Pieces.
    pub open spec fn at(self, sq: int) -> Option<int> {
        self.first_at(sq, 0)
    }

    /// The state with the ColoredPiece of index `cp` added on the Square.
    pub open spec fn with_piece(self, sq: int, cp: int) -> ChessState {
        ChessState {
            pieces: self.pieces.update(cp % 6, self.pieces[cp % 6].insert(sq)),
            colors: self.colors.update(cp / 6, self.colors[cp / 6].insert(sq)),
            ..self
        }
    }

    /// The state with the ColoredPiece found on the Square taken off it.
    pub open spec fn without(self, sq: int) -> ChessState {
        match self.at(sq) {
            Some(cp) => ChessState {
                pieces: self.pieces.update(cp % 6, self.pieces[cp % 6].remove(sq)),
                colors: self.colors.update(cp / 6, self.colors[cp / 6].remove(sq)),
                ..self
            },
            None => self,
        }
    }

    /// The Square behind `sq` as seen from the Color to move: a Rank lower
    /// for White, higher for Black.
    pub open spec fn behind(self, sq: int) -> int {
        if self.side == Color::White {
            sq - 8
        } else {
            sq + 8
        }
    }

    /// The pieces put down for the Move, on a board from which its moving
    /// piece `sp` and anything on its target were taken: the moving piece on
    /// the target, a promoted piece of the Color to move instead for a
    /// promotion, and the pawn behind the target taken for an en passant
    /// capture; for castling, the king and the rook of the Color to move on
    /// their ends.
    pub open spec fn put_down(self, m: Move, sp: int) -> ChessState {
        let tgt = m.target_index();
        let f = m.flag_index();
        let side = self.side as int;
        if f == 0 || f == 6 {
            self.with_piece(tgt, sp)
        } else if 1 <= f <= 4 {
            self.with_piece(tgt, side * 6 + f)
        } else if f == 5 {
            self.with_piece(tgt, sp).without(self.behind(tgt))
        } else {
            let d = 2 * side + (f - 7);
            self.with_piece(king_end(d), side * 6 + 5).with_piece(rook_end(d), side * 6 + 3)
        }
    }

    /// The pieces after the Move: the moving piece and anything on the
    /// target are taken off, then the pieces of the Move are put down.
    pub open spec fn placed_after(self, m: Move) -> ChessState {
        let src = m.source_index();
        let tgt = m.target_index();
        self.without(src).without(tgt).put_down(m, self.at(src)->0)
    }

    /// The state after the given Move: the pieces are placed as
    /// [`ChessState::placed_after`] says, the rights touched by the source
    /// and target Squares are lost, a double push leaves its en passant
    /// Square, the half-move clock restarts after a pawn Move or when the
    /// target was occupied, and the turn passes. The ply count is kept.
    pub open spec fn play(self, m: Move) -> ChessState {
        let src = m.source_index();
        let tgt = m.target_index();
        let sp = self.at(src)->0;
        let tp = self.without(src).at(tgt);
        let lost = self.castling.updates[src].union(self.castling.updates[tgt]);
        let rights = self.castling.rights.difference(lost).intersect(Set::new(|i: int| 0 <= i < 4));
        let f = m.flag_index();
        ChessState {
            castling: CastlingModel { rights, ..self.castling },
            en_passant: if f == 6 {
                Some(self.behind(tgt))
            } else {
                None
            },
            half_moves: if sp % 6 == 0 || tp is Some {
                0
            } else {
                self.half_moves + 1
            },
            side: self.side.other(),
            ..self.placed_after(m)
        }
    }

    /// The Move can be played: a piece stands on its source, its flag is a
    /// MoveFlag, and an en passant capture or double push has a Square
    /// behind its target.
    pub open spec fn playable(self, m: Move) -> bool {
        &&& self.at(m.source_index()) is Some
        &&& m.well_formed()
        &&& (m.flag_index() == 5 || m.flag_index() == 6) ==> 0 <= self.behind(m.target_index()) < 64
    }
}

/// Position represents the snapshot of a chess Board, the state of a chess
/// game at a single point in time.
#[derive(Copy, Clone)]
pub struct Position {
    /// The BitBoards of the pieces of each Color.
    pub color_bbs: [BitBoard; 2],
    /// The BitBoards of the pieces of each kind.
    pub piece_bbs: [BitBoard; 6],
    /// The Color to move.
    pub side_to_move: Color,
    /// The number of half-moves played.
    pub ply_count: u16,
    /// The number of half-moves since the last capture or pawn Move.
    pub half_move_clock: u8,
    /// The Square a pawn may capture en passant.
    pub en_passant_target: Option<Square>,
    /// The game is Chess960.
    pub is_fischer_random: bool,
    /// The castling information.
    pub castling: Info,
    /// The semi-unique checksum of the Position.
    pub checksum: crate::interface::hash::Hash,
}

/// The index of an optional Square.
pub open spec fn square_index(sq: Option<Square>) -> Option<int> {
    match sq {
        Some(s) => Some(s as int),
        None => None,
    }
}

impl View for Position {
    type V = ChessState;

    open spec fn view(&self) -> ChessState {
        ChessState {
            colors: self.color_bbs@.map_values(|b: BitBoard| b@),
            pieces: self.piece_bbs@.map_values(|b: BitBoard| b@),
            side: self.side_to_move,
            plies: self.ply_count as int,
            half_moves: self.half_move_clock as int,
            en_passant: square_index(self.en_passant_target),
            frc: self.is_fischer_random,
            castling: self.castling@,
        }
    }
}

/// Every set of a BitBoard lies on the board.
proof fn lemma_on_board(b: BitBoard)
    ensures
        b@.intersect(below(64)) == b@,
{
    assert(b@.intersect(below(64)) =~= b@);
}

impl Position {
    /// The FEN string of the standard starting position.
    pub const STARTPOS: &'static str = "rnbqkbnr/pppppppp/8/8/8/8/PPPPPPPP/RNBQKBNR w KQkq - 0 1";

    /// Returns the BitBoard of the pieces of the given kind.
    pub fn piece_bb(&self, piece: Piece) -> (r: BitBoard)
        ensures
            r@ == self@.pieces[piece as int],
    {
        self.piece_bbs[piece as usize]
    }

    /// Returns the BitBoard of the pieces of the given Color.
    pub fn color_bb(&self, color: Color) -> (r: BitBoard)
        ensures
            r@ == self@.colors[color as int],
    {
        self.color_bbs[color as usize]
    }

    /// Returns the BitBoard of the given ColoredPiece.
    pub fn colored_piece_bb(&self, piece: ColoredPiece) -> (r: BitBoard)
        ensures
            r@ == self@.colored(piece as int),
    {
        self.piece_bb(piece.piece()).intersection(self.color_bb(piece.color()))
    }

    /// Returns the Square a pawn may capture en passant.
    pub fn en_passant_target(&self) -> (r: Option<Square>)
        ensures
            r == self.en_passant_target,
    {
        self.en_passant_target
    }

    /// Returns the castling information.
    pub fn castling(&self) -> (r: &Info)
        ensures
            r@ == self@.castling,
    {
        &self.castling
    }

    /// Returns `true` if the game is Chess960.
    pub fn is_frc(&self) -> (r: bool)
        ensures
            r == self.is_fischer_random,
    {
        self.is_fischer_random
    }

    /// Returns the Color to move.
    pub fn side_to_move(&self) -> (r: Color)
        ensures
            r == self.side_to_move,
    {
        self.side_to_move
    }

    /// Returns the number of half-moves since the last capture or pawn Move.
    pub fn half_move_clock(&self) -> (r: usize)
        ensures
            r == self.half_move_clock,
    {
        self.half_move_clock as usize
    }

    /// Returns the number of half-moves played.
    pub fn ply_count(&self) -> (r: usize)
        ensures
            r == self.ply_count,
    {
        self.ply_count as usize
    }

    /// Returns a semi-unique checksum of the current Position.
    pub fn hash(&self) -> (r: crate::interface::hash::Hash)
        ensures
            r == self.checksum,
    {
        self.checksum
    }

    /// The end of a chess game is not detected: it is never over.
    pub fn is_game_over(&self) -> (r: bool)
        ensures
            !r,
    {
        false
    }

    /// The end of a chess game is not detected: there is never a winner.
    pub fn winner(&self) -> (r: Option<Option<Color>>)
        ensures
            r is None,
    {
        None
    }

    /// Returns the piece on the given Square, looking at the White pieces
    /// first, each Color in the order of the Pieces.
    pub fn at(&self, sq: Square) -> (r: Option<ColoredPiece>)
        ensures
            match self@.at(sq as int) {
                Some(cp) => r matches Some(p) && p as int == cp,
                None => r is None,
            },
    {
        let mut k: u8 = 0;
        while k < 12
            invariant
                k <= 12,
                self@.at(sq as int) == self@.first_at(sq as int, k as int),
            decreases 12 - k,
        {
            let piece = ColoredPiece::from_index(k);
            if self.colored_piece_bb(piece).contains(sq) {
                return Some(piece);
            }
            k = k + 1;
        }
        None
    }

    /// Adds the given piece to the given Square.
    pub fn insert(&mut self, sq: Square, piece: ColoredPiece)
        ensures
            final(self)@ == old(self)@.with_piece(sq as int, piece as int),
            final(self).checksum == old(self).checksum,
    {
        let p = piece.piece() as usize;
        let c = piece.color() as usize;
        let mut pb = self.piece_bbs[p];
        pb.insert(sq);
        self.piece_bbs[p] = pb;
        let mut cb = self.color_bbs[c];
        cb.insert(sq);
        self.color_bbs[c] = cb;
        proof {
            assert(self@.pieces =~= old(self)@.with_piece(sq as int, piece as int).pieces);
            assert(self@.colors =~= old(self)@.with_piece(sq as int, piece as int).colors);
        }
    }

    /// Removes any piece on the given Square, and returns the removed piece.
    /// Only the pieces and the colors change.
    pub fn remove(&mut self, sq: Square) -> (r: Option<ColoredPiece>)
        ensures
            final(self)@ == old(self)@.without(sq as int),
            final(self).checksum == old(self).checksum,
            match old(self)@.at(sq as int) {
                Some(cp) => r matches Some(p) && p as int == cp,
                None => r is None,
            },
    {
        match self.at(sq) {
            Some(piece) => {
                let p = piece.piece() as usize;
                let c = piece.color() as usize;
                let mut pb = self.piece_bbs[p];
                proof {
                    lemma_on_board(pb);
                }
                pb.remove(sq);
                self.piece_bbs[p] = pb;
                let mut cb = self.color_bbs[c];
                proof {
                    lemma_on_board(cb);
                }
                cb.remove(sq);
                self.color_bbs[c] = cb;
                proof {
                    assert(self@.pieces =~= old(self)@.without(sq as int).pieces);
                    assert(self@.colors =~= old(self)@.without(sq as int).colors);
                }
                Some(piece)
            },
            None => None,
        }
    }
}

impl Position {
    /// Puts down the pieces of the Move, as [`ChessState::put_down`] says.
    fn put_down(&mut self, m: Move, source_pc: ColoredPiece)
        requires
            m.well_formed(),
            m.flag_index() == 5 ==> 0 <= old(self)@.behind(m.target_index()) < 64,
        ensures
            final(self)@ == old(self)@.put_down(m, source_pc as int),
            final(self).checksum == old(self).checksum,
    {
        let target = m.target();
        let stm = self.side_to_move;
        match m.flag() {
            MoveFlag::Normal | MoveFlag::DoublePush => {
                self.insert(target, source_pc);
            },
            MoveFlag::NPromotion | MoveFlag::BPromotion | MoveFlag::RPromotion
            | MoveFlag::QPromotion => {
                self.insert(target, ColoredPiece::new(m.flag().promoted_piece(), stm));
            },
            MoveFlag::EnPassant => {
                self.insert(target, source_pc);
                match target.down(stm) {
                    Some(behind) => {
                        self.remove(behind);
                    },
                    None => {},
                }
            },
            MoveFlag::CastleHSide | MoveFlag::CastleASide => {
                let side = if m.flag() == MoveFlag::CastleHSide {
                    Side::H
                } else {
                    Side::A
                };
                let (king, rook) = Dimension::from(stm, side).get_targets();
                self.insert(king, ColoredPiece::new(Piece::King, stm));
                self.insert(rook, ColoredPiece::new(Piece::Rook, stm));
            },
        }
    }

    /// The Position with its pieces placed as after the Move, as
    /// [`ChessState::play`] places them; everything else is kept.
    pub fn placed_after_move(&self, m: Move) -> (r: Position)
        requires
            self@.playable(m),
        ensures
            r@.pieces == self@.play(m).pieces,
            r@.colors == self@.play(m).colors,
    {
        let mut board = *self;
        let source_pc = match board.remove(m.source()) {
            Some(p) => p,
            None => {
                proof {
                    assert(false);
                }
                return board;
            },
        };
        let _ = board.remove(m.target());
        board.put_down(m, source_pc);
        board
    }

    /// after_move returns the Position reached by playing the given Move on
    /// the current Position, as [`ChessState::play`] says. The checksum and
    /// the ply count are carried over unchanged.
    pub fn after_move<const UPDATE_HASH: bool>(&self, m: Move) -> (r: Position)
        requires
            self@.playable(m),
            self.half_move_clock < u8::MAX,
        ensures
            r@ == self@.play(m),
            r.checksum == self.checksum,
            r.ply_count == self.ply_count,
            r@.castling.updates == self@.castling.updates,
            self@.at(m.source_index()) matches Some(cp) && cp % 6 == 0 ==> r.half_move_clock == 0,
            m.source_index() != m.target_index() && self@.at(m.target_index()) is Some ==> r.half_move_clock
                == 0,
            m.source_index() != m.target_index() && self@.at(m.target_index()) is None && self@.at(
                m.source_index(),
            )->0 % 6 != 0 ==> r.half_move_clock == self.half_move_clock + 1,
            1 <= m.flag_index() <= 4 ==> r@.colors[self.side_to_move as int].contains(m.target_index()),
            m.flag_index() == 1 ==> r@.pieces[Piece::Knight as int].contains(m.target_index()),
            m.flag_index() == 2 ==> r@.pieces[Piece::Bishop as int].contains(m.target_index()),
            m.flag_index() == 3 ==> r@.pieces[Piece::Rook as int].contains(m.target_index()),
            m.flag_index() == 4 ==> r@.pieces[Piece::Queen as int].contains(m.target_index()),
    {
        proof {
            law_play_clock_and_promotion(self@, m);
        }
        let mut board = *self;
        let source = m.source();
        let target = m.target();
        let source_pc = match board.remove(source) {
            Some(p) => p,
            None => {
                proof {
                    assert(false);
                }
                return board;
            },
        };
        let target_pc = board.remove(target);
        let stm = board.side_to_move;
        board.put_down(m, source_pc);
        let lost = board.castling.get_updates(source).union(board.castling.get_updates(target));
        board.castling.remove_rights(lost);
        board.en_passant_target = if m.flag() == MoveFlag::DoublePush {
            target.down(stm)
        } else {
            None
        };
        board.half_move_clock = board.half_move_clock + 1;
        if source_pc.piece() == Piece::Pawn || target_pc.is_some() {
            board.half_move_clock = 0;
        }
        board.side_to_move = stm.not();
        proof {
            assert(board@ =~= self@.play(m));
        }
        board
    }
}

/// The piece found on a Square from index `k` on has an index from `k` to
/// 12.
proof fn lemma_first_at_range(st: ChessState, sq: int, k: int)
    ensures
        st.first_at(sq, k) matches Some(cp) ==> k <= cp < 12,
    decreases 12 - k,
{
    if !(k >= 12 || k < 0) && !st.colored(k).contains(sq) {
        lemma_first_at_range(st, sq, k + 1);
    }
}

/// Taking the piece off one Square leaves the pieces found from index `k`
/// on another Square as they were.
proof fn lemma_without_first_at(st: ChessState, src: int, sq: int, k: int)
    requires
        src != sq,
        st.pieces.len() == 6,
        st.colors.len() == 2,
    ensures
        st.without(src).first_at(sq, k) == st.first_at(sq, k),
    decreases 12 - k,
{
    lemma_first_at_range(st, src, 0);
    if 0 <= k < 12 {
        assert(st.without(src).colored(k).contains(sq) == st.colored(k).contains(sq));
        lemma_without_first_at(st, src, sq, k + 1);
    }
}

/// Taking the piece off one Square leaves what stands on another.
pub proof fn lemma_without_elsewhere(st: ChessState, src: int, sq: int)
    requires
        src != sq,
        st.pieces.len() == 6,
        st.colors.len() == 2,
    ensures
        st.without(src).at(sq) == st.at(sq),
{
    lemma_without_first_at(st, src, sq, 0);
}

/// Playing a Move restarts the half-move clock after a pawn Move and after a
/// Move onto an occupied Square, and counts one more half-move after any
/// other Move; a promotion puts on its target a piece of the Color to move,
/// of the kind its flag names: a Knight, a Bishop, a Rook or a Queen.
pub proof fn law_play_clock_and_promotion(st: ChessState, m: Move)
    requires
        st.playable(m),
        st.pieces.len() == 6,
        st.colors.len() == 2,
    ensures
        st.at(m.source_index())->0 % 6 == 0 ==> st.play(m).half_moves == 0,
        m.source_index() != m.target_index() && st.at(m.target_index()) is Some ==> st.play(m).half_moves
            == 0,
        m.source_index() != m.target_index() && st.at(m.target_index()) is None && st.at(
            m.source_index(),
        )->0 % 6 != 0 ==> st.play(m).half_moves == st.half_moves + 1,
        1 <= m.flag_index() <= 4 ==> st.play(m).colors[st.side as int].contains(m.target_index()),
        m.flag_index() == 1 ==> st.play(m).pieces[Piece::Knight as int].contains(m.target_index()),
        m.flag_index() == 2 ==> st.play(m).pieces[Piece::Bishop as int].contains(m.target_index()),
        m.flag_index() == 3 ==> st.play(m).pieces[Piece::Rook as int].contains(m.target_index()),
        m.flag_index() == 4 ==> st.play(m).pieces[Piece::Queen as int].contains(m.target_index()),
{
    let src = m.source_index();
    let tgt = m.target_index();
    if src != tgt {
        lemma_without_elsewhere(st, src, tgt);
    }
    lemma_first_at_range(st, src, 0);
    let a = st.without(src);
    assert(a.pieces.len() == 6 && a.colors.len() == 2);
    lemma_first_at_range(a, tgt, 0);
    let b = a.without(tgt);
    assert(b.pieces.len() == 6 && b.colors.len() == 2);
    let f = m.flag_index();
    if 1 <= f <= 4 {
        let side = st.side as int;
        let cp = side * 6 + f;
        assert(cp % 6 == f && cp / 6 == side);
        assert(st.play(m).pieces == b.with_piece(tgt, cp).pieces);
        assert(st.play(m).colors == b.with_piece(tgt, cp).colors);
    }
}

/// Only a double push leaves an en passant Square: the Square its pawn
/// crossed, a Rank below the target for White and a Rank above it for
/// Black. The turn passes to the other Color and the ply count is kept.
pub proof fn law_play_en_passant(st: ChessState, m: Move)
    requires
        st.playable(m),
    ensures
        m.flag_index() == 6 && st.side == Color::White ==> st.play(m).en_passant == Some(
            m.target_index() - 8,
        ),
        m.flag_index() == 6 && st.side == Color::Black ==> st.play(m).en_passant == Some(
            m.target_index() + 8,
        ),
        m.flag_index() != 6 ==> st.play(m).en_passant is None,
        st.play(m).side == st.side.other(),
        st.play(m).plies == st.plies,
{
}

/// Playing a Move never grants a castling right: each right touched by its
/// source or its target Square is lost, and every other right is kept.
pub proof fn law_play_castling_rights(st: ChessState, m: Move, i: int)
    requires
        st.playable(m),
    ensures
        st.play(m).castling.rights.contains(i) ==> st.castling.rights.contains(i),
        st.castling.updates[m.source_index()].contains(i) ==> !st.play(m).castling.rights.contains(i),
        st.castling.updates[m.target_index()].contains(i) ==> !st.play(m).castling.rights.contains(i),
        0 <= i < 4 && st.castling.rights.contains(i) && !st.castling.updates[m.source_index()].contains(i)
            && !st.castling.updates[m.target_index()].contains(i) ==> st.play(m).castling.rights.contains(i),
{
}

/// The Squares given a piece whose index `cp` satisfies `which` by the
/// placed pieces.
pub open spec fn placed_where(acc: Seq<(int, int)>, which: spec_fn(int) -> bool) -> Set<int>
    decreases acc.len(),
{
    if acc.len() == 0 {
        Set::empty()
    } else {
        let rest = placed_where(acc.drop_last(), which);
        if which(acc.last().0) {
            rest.insert(acc.last().1)
        } else {
            rest
        }
    }
}

/// The Squares of the placed pieces of kind `k`.
pub open spec fn placed_kind(acc: Seq<(int, int)>, k: int) -> Set<int> {
    placed_where(acc, |cp: int| cp % 6 == k)
}

/// The Squares of the placed pieces of Color index `c`.
pub open spec fn placed_color(acc: Seq<(int, int)>, c: int) -> Set<int> {
    placed_where(acc, |cp: int| cp / 6 == c)
}

/// The lowest Square of a set, if it has one.
pub open spec fn lowest_of(s: Set<int>) -> Option<int> {
    if ascending(s).len() > 0 {
        Some(ascending(s)[0])
    } else {
        None
    }
}

/// The outcome of reading a FEN string of a chess position.
pub enum ChessFen {
    /// The position read.
    Parsed(ChessState),
    /// The string does not have six fields, but the given number.
    Fields(int),
    /// The piece placement field could not be read.
    BadPlacement(Placement),
    /// A king is missing.
    MissingKing,
    /// The castling field could not be read, as given.
    BadCastling(CastlingRead),
    /// The side to move could not be read.
    BadSide,
    /// The en passant Square could not be read.
    BadEnPassant,
    /// The half-move clock or the full-move number could not be read.
    BadNumber,
}

/// Reads a FEN string of a chess position: six fields separated by spaces,
/// for the piece placement, the side to move, the castling rights, the en
/// passant Square (`-` for none), the half-move clock and the full-move
/// number. The castling rights are read for the lowest White and Black
/// kings.
pub open spec fn chess_fen(t: Seq<char>) -> ChessFen {
    let parts = split(t, ' ');
    if parts.len() != 6 {
        ChessFen::Fields(parts.len() as int)
    } else {
        match placement(parts[0], 8, 8, super::piece::colored_piece_letters()) {
            Placement::Done(acc) => {
                let kings = placed_kind(acc, 5);
                let wk = lowest_of(kings.intersect(placed_color(acc, 0)));
                let bk = lowest_of(kings.intersect(placed_color(acc, 1)));
                if wk is None || bk is None {
                    ChessFen::MissingKing
                } else {
                    match castling_text(
                        parts[2],
                        vstd::utf8::encode_utf8(parts[2]).len() as usize as int,
                        wk->0,
                        bk->0,
                    ) {
                        CastlingRead::Read(castling) => match super::piece::color_text(parts[1]) {
                            None => ChessFen::BadSide,
                            Some(side) => {
                                let ep = if parts[3] == seq!['-'] {
                                    Some(None)
                                } else {
                                    match square_text(parts[3], 8, 8) {
                                        Some(q) => Some(Some(q)),
                                        None => None,
                                    }
                                };
                                if ep is None {
                                    ChessFen::BadEnPassant
                                } else if !decimal_fits(parts[4], 255) || !decimal_fits(
                                    parts[5],
                                    65535,
                                ) {
                                    ChessFen::BadNumber
                                } else {
                                    ChessFen::Parsed(
                                        ChessState {
                                            colors: seq![placed_color(acc, 0), placed_color(acc, 1)],
                                            pieces: Seq::new(6, |k: int| placed_kind(acc, k)),
                                            side,
                                            plies: plies_of(
                                                decimal(parts[5])->0,
                                                side == Color::White,
                                            ),
                                            half_moves: decimal(parts[4])->0,
                                            en_passant: ep->0,
                                            frc: false,
                                            castling,
                                        },
                                    )
                                }
                            },
                        },
                        other => ChessFen::BadCastling(other),
                    }
                }
            },
            other => ChessFen::BadPlacement(other),
        }
    }
}

/// PositionParseError represents an error encountered while parsing a FEN
/// string into a Position.
#[derive(Debug, PartialEq, Eq)]
pub enum PositionParseError {
    /// The string has the given number of fields instead of six.
    TooManyFields(usize),
    /// The piece placement field could not be read.
    BadPiecePlacement(PiecePlacementParseError),
    /// A king is missing.
    MissingKing,
    /// The side to move or the en passant Square could not be read.
    BadSideToMove(TypeParseError),
    /// The castling rights could not be read.
    BadCastlingRights(CastlingRightsParseError),
    /// The half-move clock or the full-move number could not be read.
    BadHalfMoveClock(std::num::ParseIntError),
}

/// The lowest Square of a BitBoard, if it has one.
fn lowest_square(b: BitBoard) -> (r: Option<Square>)
    ensures
        match lowest_of(b@) {
            Some(q) => r matches Some(s) && s as int == q,
            None => r is None,
        },
{
    let mut c = b;
    proof {
        lemma_bit_seq_len(b.0);
        crate::bits::lemma_bits_finite(b.0);
        vstd::set_lib::lemma_set_empty_equivalency_len(b@);
        assert(b.on_board());
    }
    c.next()
}

impl Position {
    /// Reads a Position from the FEN string `s[lo..hi]`; its checksum is
    /// left at zero.
    pub fn parse(s: &[char], lo: usize, hi: usize) -> (r: Result<Position, PositionParseError>)
        requires
            lo <= hi <= s@.len(),
        ensures
            match chess_fen(s@.subrange(lo as int, hi as int)) {
                ChessFen::Parsed(st) => r matches Ok(p) && p@ == st && p.checksum.value() == 0,
                ChessFen::Fields(n) => r matches Err(PositionParseError::TooManyFields(m)) && m == n,
                ChessFen::BadPlacement(o) => r matches Err(PositionParseError::BadPiecePlacement(e))
                    && placement_error(e, o, 8),
                ChessFen::MissingKing => r matches Err(PositionParseError::MissingKing),
                ChessFen::BadCastling(CastlingRead::BadFile) => r matches Err(
                    PositionParseError::BadCastlingRights(
                        CastlingRightsParseError::FileParseError(TypeParseError::StrError(n)),
                    ),
                ) && n@ == "File"@,
                ChessFen::BadCastling(CastlingRead::Invalid(t)) => r matches Err(
                    PositionParseError::BadCastlingRights(CastlingRightsParseError::Invalid(x)),
                ) && x@ == t,
                ChessFen::BadCastling(CastlingRead::Read(_)) => false,
                ChessFen::BadSide => r matches Err(
                    PositionParseError::BadSideToMove(TypeParseError::StrError(n)),
                ) && n@ == "Color"@,
                ChessFen::BadEnPassant => r matches Err(
                    PositionParseError::BadSideToMove(TypeParseError::StrError(n)),
                ) && n@ == "File"@,
                ChessFen::BadNumber => r matches Err(PositionParseError::BadHalfMoveClock(_)),
            },
    {
        let ghost t = s@.subrange(lo as int, hi as int);
        let fields = split_ranges(s, lo, hi, ' ');
        if fields.len() != 6 {
            return Err(PositionParseError::TooManyFields(fields.len()));
        }
        let (p0, p1) = fields[0];
        let (s0, s1) = fields[1];
        let (c0, c1) = fields[2];
        let (e0, e1) = fields[3];
        let (h0, h1) = fields[4];
        let (f0, f1) = fields[5];
        let table = ['P', 'N', 'B', 'R', 'Q', 'K', 'p', 'n', 'b', 'r', 'q', 'k'];
        proof {
            assert(table@ =~= super::piece::colored_piece_letters());
        }
        let acc = match piece_placement(s, p0, p1, 8, 8, &table) {
            Ok(acc) => acc,
            Err(e) => {
                return Err(PositionParseError::BadPiecePlacement(e));
            },
        };
        let ghost done = widen(acc@);
        let mut piece_bbs = [
            BitBoard::empty(),
            BitBoard::empty(),
            BitBoard::empty(),
            BitBoard::empty(),
            BitBoard::empty(),
            BitBoard::empty(),
        ];
        let mut color_bbs = [BitBoard::empty(), BitBoard::empty()];
        let mut k: usize = 0;
        while k < acc.len()
            invariant
                0 <= k <= acc@.len(),
                done == widen(acc@),
                forall|j: int| 0 <= j < acc@.len() ==> (#[trigger] acc@[j]).0 < 12 && acc@[j].1 < 64,
                forall|i: int| 0 <= i < 6 ==> (#[trigger] piece_bbs@[i])@ == placed_kind(done.take(k as int), i),
                forall|i: int| 0 <= i < 2 ==> (#[trigger] color_bbs@[i])@ == placed_color(done.take(k as int), i),
            decreases acc@.len() - k,
        {
            let (p, q) = acc[k];
            let square = Square::from_index(q);
            let kind = (p % 6) as usize;
            let color = (p / 6) as usize;
            let mut pb = piece_bbs[kind];
            pb.insert(square);
            piece_bbs[kind] = pb;
            let mut cb = color_bbs[color];
            cb.insert(square);
            color_bbs[color] = cb;
            proof {
                assert(done.take(k + 1).drop_last() =~= done.take(k as int));
                assert(done.take(k + 1).last() == (p as int, q as int));
            }
            k = k + 1;
        }
        proof {
            assert(done.take(k as int) =~= done);
        }
        let kings = piece_bbs[5];
        let white_king = lowest_square(kings.intersection(color_bbs[0]));
        let black_king = lowest_square(kings.intersection(color_bbs[1]));
        let (wk, bk) = match (white_king, black_king) {
            (Some(w), Some(b)) => (w, b),
            _ => {
                return Err(PositionParseError::MissingKing);
            },
        };
        let rights_field = string_of(slice_of(s, c0, c1).as_slice());
        let castling = match Info::from_str(rights_field.as_str(), wk, bk) {
            Ok(info) => info,
            Err(e) => {
                return Err(PositionParseError::BadCastlingRights(e));
            },
        };
        let side = match Color::parse(s, s0, s1) {
            Ok(side) => side,
            Err(e) => {
                return Err(PositionParseError::BadSideToMove(e));
            },
        };
        let no_target = field_is(s, e0, e1, "-");
        proof {
            reveal_strlit("-");
            assert("-"@ =~= seq!['-']);
        }
        let en_passant_target = if no_target {
            None
        } else {
            match Square::parse(s, e0, e1) {
                Ok(q) => Some(q),
                Err(e) => {
                    return Err(PositionParseError::BadSideToMove(e));
                },
            }
        };
        let half_move_clock = match parse_u8_field(s, h0, h1) {
            Ok(v) => v,
            Err(e) => {
                return Err(PositionParseError::BadHalfMoveClock(e));
            },
        };
        let ply_count = match ply_count(s, f0, f1, side == Color::White) {
            Ok(v) => v,
            Err(e) => {
                return Err(PositionParseError::BadHalfMoveClock(e));
            },
        };
        let r = Position {
            color_bbs,
            piece_bbs,
            side_to_move: side,
            ply_count,
            half_move_clock,
            en_passant_target,
            is_fischer_random: false,
            castling,
            checksum: crate::interface::hash::Hash::zero(),
        };
        proof {
            assert(r@.pieces =~= Seq::new(6, |k: int| placed_kind(done, k)));
            assert(r@.colors =~= seq![placed_color(done, 0), placed_color(done, 1)]);
        }
        Ok(r)
    }
}

impl core::str::FromStr for Position {
    type Err = PositionParseError;

    fn from_str(s: &str) -> (r: Result<Position, PositionParseError>)
        ensures
            match chess_fen(s@) {
                ChessFen::Parsed(st) => r matches Ok(p) && p@ == st && p.checksum.value() == 0,
                ChessFen::Fields(n) => r matches Err(PositionParseError::TooManyFields(m)) && m == n,
                ChessFen::BadPlacement(o) => r matches Err(PositionParseError::BadPiecePlacement(e))
                    && placement_error(e, o, 8),
                ChessFen::MissingKing => r matches Err(PositionParseError::MissingKing),
                ChessFen::BadCastling(CastlingRead::BadFile) => r matches Err(
                    PositionParseError::BadCastlingRights(
                        CastlingRightsParseError::FileParseError(TypeParseError::StrError(n)),
                    ),
                ) && n@ == "File"@,
                ChessFen::BadCastling(CastlingRead::Invalid(t)) => r matches Err(
                    PositionParseError::BadCastlingRights(CastlingRightsParseError::Invalid(x)),
                ) && x@ == t,
                ChessFen::BadCastling(CastlingRead::Read(_)) => false,
                ChessFen::BadSide => r matches Err(
                    PositionParseError::BadSideToMove(TypeParseError::StrError(n)),
                ) && n@ == "Color"@,
                ChessFen::BadEnPassant => r matches Err(
                    PositionParseError::BadSideToMove(TypeParseError::StrError(n)),
                ) && n@ == "File"@,
                ChessFen::BadNumber => r matches Err(PositionParseError::BadHalfMoveClock(_)),
            },
    {
        let chars = chars_of(s);
        proof {
            assert(chars@.subrange(0, chars@.len() as int) =~= s@);
        }
        Position::parse(chars.as_slice(), 0, chars.len())
    }
}

/// The distance between two numbers.
pub open spec fn dist(a: int, b: int) -> int {
    if a > b {
        a - b
    } else {
        b - a
    }
}

/// The outcome of reading a Move in a position.
pub enum MoveRead {
    /// The Move read.
    Read(Move),
    /// The text has neither 4 nor 5 characters, but the given number.
    BadLength(int),
    /// A Square could not be read.
    BadSquare,
    /// The flag letter could not be read.
    BadFlag,
    /// No piece stands on the source Square.
    EmptySource,
}

/// Reads a Move in pure coordinate notation in the given state: the source
/// and target Squares, and optionally the letter of a MoveFlag. Without a
/// flag letter, a pawn moving two Ranks makes a double push, a pawn moving
/// to the en passant Square an en passant capture, a king moving more than
/// one File castles towards the side it moves to, and any other Move is
/// Normal.
pub open spec fn move_read(st: ChessState, t: Seq<char>) -> MoveRead {
    if t.len() < 4 || t.len() > 5 {
        MoveRead::BadLength(t.len() as int)
    } else {
        match (square_text(t.subrange(0, 2), 8, 8), square_text(t.subrange(2, 4), 8, 8)) {
            (Some(src), Some(tgt)) => match st.at(src) {
                None => MoveRead::EmptySource,
                Some(cp) => {
                    let piece = cp % 6;
                    let pawn = piece == 0;
                    if t.len() == 5 {
                        let f = first_index(flag_letters(), t[4]);
                        if f < 0 {
                            MoveRead::BadFlag
                        } else {
                            MoveRead::Read(Move::packed(src, tgt, f))
                        }
                    } else if pawn && dist(src as int / 8, tgt as int / 8) == 2 {
                        MoveRead::Read(Move::packed(src, tgt, 6))
                    } else if pawn && st.en_passant == Some(tgt) {
                        MoveRead::Read(Move::packed(src, tgt, 5))
                    } else if piece == 5 && dist(src as int % 8, tgt as int % 8) > 1 {
                        MoveRead::Read(Move::packed(src, tgt, if src > tgt { 8 } else { 7 }))
                    } else {
                        MoveRead::Read(Move::packed(src, tgt, 0))
                    }
                },
            },
            _ => MoveRead::BadSquare,
        }
    }
}

/// The pure coordinate notation of a Move: the source and target Squares,
/// with the letter of the promoted piece for a promotion. In standard chess
/// a castling Move is written with the king's own two-File step.
pub open spec fn move_name(m: Move, frc: bool) -> Seq<char> {
    let src = m.source_index();
    let tgt = m.target_index();
    let f = m.flag_index();
    if 1 <= f <= 4 {
        square_name(src, 8) + square_name(tgt, 8) + seq![flag_letters()[f]]
    } else if (f == 7 || f == 8) && !frc {
        square_name(src, 8) + square_name(if f == 7 { src + 2 } else { src - 2 }, 8)
    } else {
        square_name(src, 8) + square_name(tgt, 8)
    }
}

/// The source and target Squares of a Move in pure coordinate notation.
fn coordinate_squares(chars: &[char]) -> (r: Result<(u8, u8), TypeParseError>)
    requires
        4 <= chars@.len(),
    ensures
        match (square_text(chars@.subrange(0, 2), 8, 8), square_text(chars@.subrange(2, 4), 8, 8)) {
            (Some(a), Some(b)) => r == Ok::<(u8, u8), TypeParseError>((a as u8, b as u8)) && a < 64
                && b < 64,
            _ => r matches Err(TypeParseError::StrError(n)) && n@ == "File"@,
        },
{
    let source = match Square::parse(chars, 0, 2) {
        Ok(q) => q,
        Err(e) => {
            return Err(e);
        },
    };
    let target = match Square::parse(chars, 2, 4) {
        Ok(q) => q,
        Err(e) => {
            return Err(e);
        },
    };
    Ok((source as u8, target as u8))
}

/// The MoveFlag of a Move written without a flag letter, for a piece of
/// the given kind moving from `src` to `tgt` when `ep` is the en passant
/// Square.
fn implied_flag(piece: Piece, src: u8, tgt: u8, ep: Option<u8>) -> (r: MoveFlag)
    requires
        src < 64,
        tgt < 64,
    ensures
        r as int == (if piece == Piece::Pawn && dist(src as int / 8, tgt as int / 8) == 2 {
            6int
        } else if piece == Piece::Pawn && ep == Some(tgt) {
            5int
        } else if piece == Piece::King && dist(src as int % 8, tgt as int % 8) > 1 {
            if src > tgt {
                8int
            } else {
                7int
            }
        } else {
            0int
        }),
{
    let x_dist = if src % 8 > tgt % 8 {
        src % 8 - tgt % 8
    } else {
        tgt % 8 - src % 8
    };
    let y_dist = if src / 8 > tgt / 8 {
        src / 8 - tgt / 8
    } else {
        tgt / 8 - src / 8
    };
    if piece == Piece::Pawn && y_dist == 2 {
        MoveFlag::DoublePush
    } else if piece == Piece::Pawn && ep == Some(tgt) {
        MoveFlag::EnPassant
    } else if piece == Piece::King && x_dist > 1 {
        if src > tgt {
            MoveFlag::CastleASide
        } else {
            MoveFlag::CastleHSide
        }
    } else {
        MoveFlag::Normal
    }
}

impl Position {
    /// Reads a Move in pure coordinate notation in this Position, as
    /// [`move_read`] says. Text that is not ASCII is refused for its length
    /// unless it has 4 or 5 bytes; then it must start with two ASCII
    /// characters that name no Square, and is refused for them.
    pub fn parse_move(&self, move_str: &str) -> (r: Result<Move, MoveParseError>)
        requires
            move_str.is_ascii() || (move_str.spec_bytes().len() != 4 && move_str.spec_bytes().len()
                != 5) || bad_leading_square(move_str@, 8, 8),
        ensures
            !move_str.is_ascii() && move_str.spec_bytes().len() != 4 && move_str.spec_bytes().len()
                != 5 ==> r == Err::<Move, MoveParseError>(
                MoveParseError::BadLength(move_str.spec_bytes().len() as usize),
            ),
            !move_str.is_ascii() && (move_str.spec_bytes().len() == 4 || move_str.spec_bytes().len()
                == 5) ==> (r matches Err(MoveParseError::BadSquare(TypeParseError::StrError(n)))
                && n@ == "File"@),
            move_str.is_ascii() ==> match move_read(self@, move_str@) {
                MoveRead::Read(m) => r == Ok::<Move, MoveParseError>(m),
                MoveRead::BadLength(n) => r == Err::<Move, MoveParseError>(
                    MoveParseError::BadLength(n as usize),
                ),
                MoveRead::BadSquare => r matches Err(
                    MoveParseError::BadSquare(TypeParseError::StrError(n)),
                ) && n@ == "File"@,
                MoveRead::BadFlag => r matches Err(
                    MoveParseError::BadSquare(TypeParseError::StrError(n)),
                ) && n@ == "MoveFlag"@,
                MoveRead::EmptySource => r == Err::<Move, MoveParseError>(MoveParseError::EmptySource),
            },
    {
        if !move_str.is_ascii() {
            let bytes = move_str.as_bytes().len();
            if bytes != 4 && bytes != 5 {
                return Err(MoveParseError::BadLength(bytes));
            }
            let chars = chars_of(move_str);
            return match Square::parse(chars.as_slice(), 0, 2) {
                Ok(_) => {
                    proof {
                        assert(false);
                    }
                    Err(MoveParseError::BadLength(bytes))
                },
                Err(e) => Err(MoveParseError::BadSquare(e)),
            };
        }
        let chars = chars_of(move_str);
        let ghost t = move_str@;
        let n = chars.len();
        if n < 4 || n > 5 {
            return Err(MoveParseError::BadLength(n));
        }
        let (src, tgt) = match coordinate_squares(chars.as_slice()) {
            Ok(pair) => pair,
            Err(e) => {
                return Err(MoveParseError::BadSquare(e));
            },
        };
        let source = Square::from_index(src);
        let target = Square::from_index(tgt);
        let source_piece = match self.at(source) {
            Some(piece) => piece.piece(),
            None => {
                return Err(MoveParseError::EmptySource);
            },
        };
        let flag = if n == 5 {
            match MoveFlag::parse(chars.as_slice(), 4, 5) {
                Ok(f) => f,
                Err(e) => {
                    proof {
                        assert(chars@.subrange(4, 5)[0] == t[4]);
                    }
                    return Err(MoveParseError::BadSquare(e));
                },
            }
        } else {
            let ep = match self.en_passant_target {
                Some(q) => Some(q as u8),
                None => None,
            };
            implied_flag(source_piece, src, tgt, ep)
        };
        proof {
            if n == 5 {
                assert(chars@.subrange(4, 5)[0] == t[4]);
            }
        }
        Ok(Move::new(source, target, flag))
    }
}

impl Move {
    /// Reads a Move in pure coordinate notation in the given Position, as
    /// [`Position::parse_move`] does.
    pub fn from_str(move_str: &str, position: &Position) -> (r: Result<Move, MoveParseError>)
        requires
            move_str.is_ascii() || (move_str.spec_bytes().len() != 4 && move_str.spec_bytes().len()
                != 5) || bad_leading_square(move_str@, 8, 8),
        ensures
            !move_str.is_ascii() && move_str.spec_bytes().len() != 4 && move_str.spec_bytes().len()
                != 5 ==> r == Err::<Move, MoveParseError>(
                MoveParseError::BadLength(move_str.spec_bytes().len() as usize),
            ),
            !move_str.is_ascii() && (move_str.spec_bytes().len() == 4 || move_str.spec_bytes().len()
                == 5) ==> (r matches Err(MoveParseError::BadSquare(TypeParseError::StrError(n)))
                && n@ == "File"@),
            move_str.is_ascii() ==> match move_read(position@, move_str@) {
                MoveRead::Read(m) => r == Ok::<Move, MoveParseError>(m),
                MoveRead::BadLength(n) => r == Err::<Move, MoveParseError>(
                    MoveParseError::BadLength(n as usize),
                ),
                MoveRead::BadSquare => r matches Err(
                    MoveParseError::BadSquare(TypeParseError::StrError(n)),
                ) && n@ == "File"@,
                MoveRead::BadFlag => r matches Err(
                    MoveParseError::BadSquare(TypeParseError::StrError(n)),
                ) && n@ == "MoveFlag"@,
                MoveRead::EmptySource => r == Err::<Move, MoveParseError>(MoveParseError::EmptySource),
            },
    {
        position.parse_move(move_str)
    }

    /// The pure coordinate notation of the Move in the given Position, as
    /// [`move_name`] says.
    pub fn to_string(self, position: &Position) -> (r: String)
        requires
            self.well_formed(),
            (self.flag_index() == 7 && !position.is_fischer_random) ==> self.source_index() + 2 < 64,
            (self.flag_index() == 8 && !position.is_fischer_random) ==> self.source_index() >= 2,
        ensures
            r@ == move_name(self, position.is_fischer_random),
    {
        let src = self.source() as u8;
        let flag = self.flag();
        let mut v = square_chars(src, 8);
        let tgt = if flag == MoveFlag::CastleHSide && !position.is_frc() {
            src + 2
        } else if flag == MoveFlag::CastleASide && !position.is_frc() {
            src - 2
        } else {
            self.target() as u8
        };
        let w = square_chars(tgt, 8);
        v.push(w[0]);
        v.push(w[1]);
        if flag.is_promotion() {
            let table = ['N', 'n', 'b', 'r', 'q', 'e', 'd', 'h', 'a'];
            proof {
                assert(table@ =~= flag_letters());
            }
            v.push(table[flag as usize]);
        }
        proof {
            assert(v@ =~= move_name(self, position.is_fischer_random));
        }
        string_of(v.as_slice())
    }
}

/// The place of the cell of the Square of index `sq` in the picture of a
/// position: after the leading space, the lines of the Ranks above it, of
/// twenty-one characters each, then two characters for each File before it.
pub open spec fn picture_place(sq: int) -> int {
    1 + (7 - sq / 8) * 21 + 2 * (sq % 8)
}

/// In the picture of a position the cell of each Square shows the letter of
/// the piece found on it, upper case for White and lower case for Black,
/// and `.` only when no piece stands on it.
pub proof fn law_picture_cells(st: ChessState, sq: int)
    requires
        0 <= sq < 64,
    ensures
        st.at(sq) matches Some(cp) ==> st.picture()[picture_place(sq)] == colored_piece_letters()[cp],
        st.picture()[picture_place(sq)] == '.' <==> st.at(sq) is None,
{
    let r = sq / 8;
    let x = sq % 8;
    assert(r * 8 + x == sq);
    crate::interface::art::lemma_numbered_lines_len(st.cells(), 8, 8, 0);
    crate::interface::art::lemma_numbered_lines_at(st.cells(), 8, 8, 0, r, x);
    let lines = rank_lines(st.cells(), 8, 8, 0, true);
    assert((7 - r) * 21 + 2 * x < 168);
    assert(st.picture()[picture_place(sq)] == lines[(8 - 1 - r) * (2 * 8 + 5) + 2 * x]);
    assert(st.cells()[sq] == st.cell(sq));
    lemma_first_at_range(st, sq, 0);
}

impl ChessState {
    /// The letter of the Square of index `i` in the picture of the
    /// position: the piece on it, or `.`.
    pub open spec fn cell(self, i: int) -> char {
        match self.at(i) {
            Some(cp) => colored_piece_letters()[cp],
            None => '.',
        }
    }

    /// The letters of all the Squares, by index.
    pub open spec fn cells(self) -> Seq<char> {
        Seq::new(64, |i: int| self.cell(i))
    }

    /// The picture of the position: the Squares of each Rank, the top Rank
    /// first, with the Ranks' numbers and the Files' letters, then the side
    /// to move.
    pub open spec fn picture(self) -> Seq<char> {
        seq![' '] + rank_lines(self.cells(), 8, 8, 0, true) + seq!['\n', ' ', 'a', ' ', 'b', ' ', 'c', ' ', 'd', ' ', 'e', ' ', 'f', ' ', 'g', ' ', 'h', '\n', '\n'] + side_label()
            + color_name(self.side) + seq!['\n']
    }
}

impl Position {
    /// The picture of the Position as ASCII art: the Squares of each Rank,
    /// the top Rank first, with the Ranks' numbers and the Files' letters,
    /// then the side to move.
    pub fn to_string(&self) -> (r: String)
        ensures
            r@ == self@.picture(),
            forall|sq: int|
                0 <= sq < 64 ==> (#[trigger] r@[picture_place(sq)] == '.' <==> self@.at(sq) is None),
    {
        let mut cells: Vec<char> = Vec::new();
        let mut i: u8 = 0;
        while i < 64
            invariant
                i <= 64,
                cells@ == Seq::new(i as nat, |k: int| self@.cell(k)),
            decreases 64 - i,
        {
            let c = match self.at(Square::from_index(i)) {
                Some(cp) => cp.letter(),
                None => '.',
            };
            cells.push(c);
            i = i + 1;
            proof {
                assert(cells@ =~= Seq::new(i as nat, |k: int| self@.cell(k)));
            }
        }
        let mut out: Vec<char> = Vec::new();
        out.push(' ');
        push_rank_lines(&mut out, cells.as_slice(), 8, 8, true);
        push_chars(&mut out, &['\n', ' ', 'a', ' ', 'b', ' ', 'c', ' ', 'd', ' ', 'e', ' ', 'f', ' ', 'g', ' ', 'h', '\n', '\n']);
        push_side_label(&mut out);
        match self.side_to_move {
            Color::White => out.push('w'),
            Color::Black => out.push('b'),
        }
        out.push('\n');
        proof {
            assert(cells@ =~= self@.cells());
            assert(out@ =~= self@.picture());
            assert forall|sq: int| 0 <= sq < 64 implies (#[trigger] out@[picture_place(sq)] == '.'
                <==> self@.at(sq) is None) by {
                law_picture_cells(self@, sq);
            }
        }
        string_of(out.as_slice())
    }
}

/// The ColoredPiece of the given index, below 12.
pub open spec fn colored_piece_of(cp: int) -> ColoredPiece {
    if cp == 0 {
        ColoredPiece::WhitePawn
    } else if cp == 1 {
        ColoredPiece::WhiteKnight
    } else if cp == 2 {
        ColoredPiece::WhiteBishop
    } else if cp == 3 {
        ColoredPiece::WhiteRook
    } else if cp == 4 {
        ColoredPiece::WhiteQueen
    } else if cp == 5 {
        ColoredPiece::WhiteKing
    } else if cp == 6 {
        ColoredPiece::BlackPawn
    } else if cp == 7 {
        ColoredPiece::BlackKnight
    } else if cp == 8 {
        ColoredPiece::BlackBishop
    } else if cp == 9 {
        ColoredPiece::BlackRook
    } else if cp == 10 {
        ColoredPiece::BlackQueen
    } else {
        ColoredPiece::BlackKing
    }
}

/// A ColoredPiece is the one of its index.
proof fn lemma_colored_piece_of(p: ColoredPiece)
    ensures
        colored_piece_of(p as int) == p,
{
    match p {
        ColoredPiece::WhitePawn => {},
        ColoredPiece::WhiteKnight => {},
        ColoredPiece::WhiteBishop => {},
        ColoredPiece::WhiteRook => {},
        ColoredPiece::WhiteQueen => {},
        ColoredPiece::WhiteKing => {},
        ColoredPiece::BlackPawn => {},
        ColoredPiece::BlackKnight => {},
        ColoredPiece::BlackBishop => {},
        ColoredPiece::BlackRook => {},
        ColoredPiece::BlackQueen => {},
        ColoredPiece::BlackKing => {},
    }
}

impl FENParsablePosition for Position {
    type Square = Square;
    type ColoredPiece = ColoredPiece;

    open spec fn piece_at(&self, sq: Square) -> Option<ColoredPiece> {
        match self@.at(sq as int) {
            Some(cp) => Some(colored_piece_of(cp)),
            None => None,
        }
    }

    fn insert(&mut self, sq: Square, piece: ColoredPiece)
        ensures
            final(self)@ == old(self)@.with_piece(sq as int, piece as int),
            final(self).checksum == old(self).checksum,
    {
        Position::insert(self, sq, piece)
    }

    fn remove(&mut self, sq: Square) -> (r: Option<ColoredPiece>) {
        let r = Position::remove(self, sq);
        proof {
            if let Some(p) = r {
                lemma_colored_piece_of(p);
            }
        }
        r
    }

    fn at(&self, sq: Square) -> (r: Option<ColoredPiece>) {
        let r = Position::at(self, sq);
        proof {
            if let Some(p) = r {
                lemma_colored_piece_of(p);
            }
        }
        r
    }
}

} // verus!
