//! Ataxx Positions: the rules of the game over the sets of occupied Squares,
//! and the BitBoard representation that follows them.
use vstd::prelude::*;
use crate::interface::FENParsablePosition;
use crate::interface::art::{push_chars, push_rank_lines, push_side_label, rank_lines, side_label};
use core::ops::Not;
use crate::bits::{below, sym};
use crate::interface::bitboard::ascending;
use crate::interface::hash::pair_hash;
use super::board::{BitBoard, Square};
use super::moves::{ring, zone, Move};
use super::piece::{color_name, color_text, Color, ColoredPiece, Piece};
use crate::interface::TypeParseError;
use crate::interface::parse::{
    chars_of, decimal, decimal_fits, parse_u8_field, piece_placement, placement, placement_error,
    placed, plies_of, ply_count, split, split_ranges, widen, Placement, PiecePlacementParseError,
    string_of,
};

verus! {

/// The jump Moves from each Square of `sources` into `free`, source by
/// source in the order given, targets ascending.
pub open spec fn jumps(sources: Seq<int>, free: Set<int>) -> Seq<Move>
    decreases sources.len(),
{
    if sources.len() == 0 {
        Seq::empty()
    } else {
        let p = sources.last();
        jumps(sources.drop_last(), free) + ascending(ring(p, 2).intersect(free)).map_values(
            |t: int| Move::packed(p, t),
        )
    }
}

/// The abstract state of an Ataxx game.
pub struct State {
    /// The Squares holding Black stones.
    pub black: Set<int>,
    /// The Squares holding White stones.
    pub white: Set<int>,
    /// The Squares holding blockers.
    pub blocks: Set<int>,
    /// The Color to move.
    pub side: Color,
    /// The number of half-moves played.
    pub plies: int,
    /// The number of half-moves since the last singular Move.
    pub half_moves: int,
}

impl State {
    /// The stones of the given Color.
    pub open spec fn stones(self, color: Color) -> Set<int> {
        match color {
            Color::Black => self.black,
            Color::White => self.white,
        }
    }

    /// Every piece lies on the board.
    pub open spec fn on_board(self) -> bool {
        &&& self.black.subset_of(below(49))
        &&& self.white.subset_of(below(49))
        &&& self.blocks.subset_of(below(49))
    }

    /// Every piece lies on the board and no Square holds two pieces.
    pub open spec fn well_formed(self) -> bool {
        &&& self.on_board()
        &&& self.black.disjoint(self.white)
        &&& self.black.disjoint(self.blocks)
        &&& self.white.disjoint(self.blocks)
    }

    /// The Squares which hold no piece.
    pub open spec fn free(self) -> Set<int> {
        below(49).difference(self.black.union(self.white).union(self.blocks))
    }

    /// The game is over: by the fifty-move rule, a full board, or a side
    /// without stones.
    pub open spec fn game_over(self) -> bool {
        ||| self.half_moves >= 100
        ||| self.black.union(self.white).union(self.blocks) == below(49)
        ||| self.white == Set::<int>::empty()
        ||| self.black == Set::<int>::empty()
    }

    /// The outcome of the game: `None` while it goes on, `Some(None)` for a
    /// draw (by the fifty-move rule, or by an equal count on a full board),
    /// else the side with more stones, or the side that still has stones.
    pub open spec fn winner(self) -> Option<Option<Color>> {
        if !self.game_over() {
            None
        } else if self.half_moves >= 100 {
            Some(None)
        } else if self.black == Set::<int>::empty() {
            Some(Some(Color::White))
        } else if self.white == Set::<int>::empty() {
            Some(Some(Color::Black))
        } else if self.black.len() < self.white.len() {
            Some(Some(Color::White))
        } else if self.black.len() > self.white.len() {
            Some(Some(Color::Black))
        } else {
            Some(None)
        }
    }

    /// The singular Moves, by ascending target.
    pub open spec fn single_moves(self) -> Seq<Move> {
        ascending(zone(self.stones(self.side)).intersect(self.free())).map_values(
            |t: int| Move::packed(t, t),
        )
    }

    /// The jump Moves, by ascending source and then ascending target.
    pub open spec fn jump_moves(self) -> Seq<Move> {
        jumps(ascending(self.stones(self.side)), self.free())
    }

    /// The Moves of the position, in the order in which they are generated: none
    /// when the game is over, else the singular Moves, the jump Moves, and the
    /// pass Move when there is no other.
    pub open spec fn moves(self) -> Seq<Move> {
        if self.game_over() {
            Seq::empty()
        } else if self.single_moves().len() + self.jump_moves().len() == 0 {
            seq![Move::pass_move()]
        } else {
            self.single_moves() + self.jump_moves()
        }
    }

    /// The state after the given Move. A pass only hands the turn over. Any
    /// other Move puts a stone on its target, takes it off its source when it
    /// jumps, and turns the opposing stones around the target.
    pub open spec fn play(self, m: Move) -> State {
        if m == Move::pass_move() {
            State {
                side: self.side.other(),
                plies: self.plies + 1,
                half_moves: self.half_moves + 1,
                ..self
            }
        } else {
            let s = m.source_index();
            let t = m.target_index();
            let own = self.stones(self.side);
            let theirs = self.stones(self.side.other());
            let captured = ring(t, 1).intersect(theirs);
            let new_own = sym(sym(own, captured), set![s, t]);
            let new_theirs = theirs.difference(captured);
            State {
                black: if self.side == Color::Black {
                    new_own
                } else {
                    new_theirs
                },
                white: if self.side == Color::Black {
                    new_theirs
                } else {
                    new_own
                },
                blocks: self.blocks,
                side: self.side.other(),
                plies: self.plies + 1,
                half_moves: if s == t {
                    0
                } else {
                    self.half_moves + 1
                },
            }
        }
    }
}

/// The hash of a position with the given Black and White BitBoards and side
/// to move: the pair hash of the two BitBoards, complemented for Black.
pub open spec fn position_hash(black: u64, white: u64, side: Color) -> u64 {
    if side == Color::Black {
        !pair_hash(black, white)
    } else {
        pair_hash(black, white)
    }
}

/// Two positions which differ only in their side to move have complementary
/// hashes.
pub proof fn law_hash_side_flip(black: u64, white: u64)
    ensures
        position_hash(black, white, Color::Black) == !position_hash(black, white, Color::White),
        position_hash(black, white, Color::White) == !position_hash(black, white, Color::Black),
{
    crate::bits::lemma_not_not(pair_hash(black, white));
}

/// Position represents the snapshot of an Ataxx Board, the state of an Ataxx
/// game at a single point in time.
#[derive(Copy, Clone)]
pub struct Position {
    /// bitboards stores the BitBoards of Black stones, White stones and
    /// blockers, in this order.
    pub bitboards: [BitBoard; 3],
    /// checksum stores the semi-unique Hash of the current Position.
    pub checksum: crate::interface::hash::Hash,
    /// side_to_move stores the Color whose turn to move it currently is.
    pub side_to_move: Color,
    /// The number of half-moves played.
    pub ply_count: u16,
    /// half-move clock stores the number of half-moves since the last
    /// irreversible Move. It is used to adjudicate games using the
    /// 50-move/100-ply rule.
    pub half_move_clock: u8,
}

impl View for Position {
    type V = State;

    open spec fn view(&self) -> State {
        State {
            black: self.bitboards@[0]@,
            white: self.bitboards@[1]@,
            blocks: self.bitboards@[2]@,
            side: self.side_to_move,
            plies: self.ply_count as int,
            half_moves: self.half_move_clock as int,
        }
    }
}

impl Position {
    /// The checksum matches the one computed from the BitBoards.
    pub open spec fn hash_consistent(self) -> bool {
        self.checksum.value() == position_hash(
            self.bitboards@[0].0,
            self.bitboards@[1].0,
            self.side_to_move,
        )
    }

    /// The FEN string of the standard starting position.
    pub const STARTPOS: &'static str = "x5o/7/7/7/7/7/o5x x 0 1";

    /// new creates a new Position with the given BitBoards and side to move,
    /// computing its Hash.
    pub fn new(
        black: BitBoard,
        white: BitBoard,
        block: BitBoard,
        side_to_move: Color,
        ply_count: u16,
        half_move_clock: u8,
    ) -> (r: Position)
        ensures
            r.bitboards@ == seq![black, white, block],
            r.side_to_move == side_to_move,
            r.ply_count == ply_count,
            r.half_move_clock == half_move_clock,
            r.hash_consistent(),
    {
        Position {
            bitboards: [black, white, block],
            checksum: Position::get_hash(black, white, side_to_move),
            side_to_move,
            ply_count,
            half_move_clock,
        }
    }

    /// Returns the number of half-moves played.
    pub fn ply_count(&self) -> (r: usize)
        ensures
            r == self.ply_count,
    {
        self.ply_count as usize
    }

    /// Returns a semi-unique checksum of the current Position.
    pub fn hash(&self) -> (r: crate::interface::hash::Hash)
        ensures
            r == self.checksum,
    {
        self.checksum
    }

    /// Returns the Color to move.
    pub fn side_to_move(&self) -> (r: Color)
        ensures
            r == self.side_to_move,
    {
        self.side_to_move
    }

    /// Returns the half-move clock.
    pub fn half_move_clock(&self) -> (r: usize)
        ensures
            r == self.half_move_clock,
    {
        self.half_move_clock as usize
    }

    /// Returns the BitBoard stored at the index of the given Piece.
    pub fn piece_bb(&self, piece: Piece) -> (r: BitBoard)
        ensures
            r == self.bitboards@[piece as int],
    {
        self.bitboards[piece as usize]
    }

    /// Returns the BitBoard of the stones of the given Color.
    pub fn color_bb(&self, color: Color) -> (r: BitBoard)
        ensures
            r == self.bitboards@[color as int],
            r@ == self@.stones(color),
    {
        self.bitboards[color as usize]
    }

    /// Returns the BitBoard of the given ColoredPiece.
    pub fn colored_piece_bb(&self, piece: ColoredPiece) -> (r: BitBoard)
        ensures
            r == self.bitboards@[piece as int],
    {
        self.bitboards[piece as usize]
    }

    /// Computes the Hash of a position from its Black and White BitBoards and
    /// its side to move. Positions which only differ in side to move have
    /// complementary Hashes.
    pub fn get_hash(black: BitBoard, white: BitBoard, stm: Color) -> (r:
        crate::interface::hash::Hash)
        ensures
            r.value() == position_hash(black.0, white.0, stm),
    {
        let hash = crate::interface::hash::hash_pair(black.0, white.0);
        match stm {
            Color::Black => crate::interface::hash::Hash::new(!hash),
            Color::White => crate::interface::hash::Hash::new(hash),
        }
    }

    /// Returns the piece on the given Square, looking at the Black stones,
    /// the White stones and the blockers in this order.
    pub fn at(&self, sq: Square) -> (r: Option<ColoredPiece>)
        ensures
            r == self.at_spec(sq),
    {
        if self.bitboards[0].contains(sq) {
            Some(ColoredPiece::BlackPiece)
        } else if self.bitboards[1].contains(sq) {
            Some(ColoredPiece::WhitePiece)
        } else if self.bitboards[2].contains(sq) {
            Some(ColoredPiece::Block)
        } else {
            None
        }
    }

    /// Adds the given piece to the given Square.
    pub fn insert(&mut self, sq: Square, piece: ColoredPiece)
        ensures
            final(self).bitboards@ == old(self).bitboards@.update(
                piece as int,
                BitBoard(final(self).bitboards@[piece as int].0),
            ),
            final(self).bitboards@[piece as int]@ == old(self).bitboards@[piece as int]@.insert(
                sq as int,
            ),
            final(self).checksum == old(self).checksum,
            final(self).side_to_move == old(self).side_to_move,
            final(self).ply_count == old(self).ply_count,
            final(self).half_move_clock == old(self).half_move_clock,
    {
        let i = piece as usize;
        let mut bb = self.bitboards[i];
        bb.insert(sq);
        self.bitboards[i] = bb;
    }

    /// Removes any piece on the given Square, and returns the removed piece.
    pub fn remove(&mut self, sq: Square) -> (r: Option<ColoredPiece>)
        ensures
            r == old(self).at_spec(sq),
            r is None ==> *final(self) == *old(self),
            r matches Some(p) ==> final(self).bitboards@ == old(self).bitboards@.update(
                p as int,
                BitBoard(final(self).bitboards@[p as int].0),
            ) && final(self).bitboards@[p as int]@ == old(self).bitboards@[p as int]@.intersect(
                below(49),
            ).remove(sq as int),
            final(self).checksum == old(self).checksum,
            final(self).side_to_move == old(self).side_to_move,
            final(self).ply_count == old(self).ply_count,
            final(self).half_move_clock == old(self).half_move_clock,
    {
        match self.at(sq) {
            Some(piece) => {
                let i = piece as usize;
                let mut bb = self.bitboards[i];
                bb.remove(sq);
                self.bitboards[i] = bb;
                Some(piece)
            },
            None => None,
        }
    }

    /// The piece on the given Square, as [`Position::at`] finds it.
    pub open spec fn at_spec(self, sq: Square) -> Option<ColoredPiece> {
        if self@.black.contains(sq as int) {
            Some(ColoredPiece::BlackPiece)
        } else if self@.white.contains(sq as int) {
            Some(ColoredPiece::WhitePiece)
        } else if self@.blocks.contains(sq as int) {
            Some(ColoredPiece::Block)
        } else {
            None
        }
    }

    /// is_game_over checks if the game is over, i.e. is a win or a draw.
    pub fn is_game_over(&self) -> (r: bool)
        ensures
            r == self@.game_over(),
    {
        let black = self.colored_piece_bb(ColoredPiece::BlackPiece);
        let white = self.colored_piece_bb(ColoredPiece::WhitePiece);
        let block = self.colored_piece_bb(ColoredPiece::Block);
        let all = white.union(black).union(block);
        let full = all.0 == super::board::UNIVERSE_BITS;
        proof {
            super::board::lemma_geometry();
            assert(all@ =~= self@.black.union(self@.white).union(self@.blocks));
            if !full && all@ == below(49) {
                crate::bits::lemma_bits_eq(all.0, super::board::UNIVERSE_BITS);
            }
        }
        self.half_move_clock >= 100 || full || white.is_empty() || black.is_empty()
    }

    /// winner returns the Color which has won the game, `Some(None)` for a
    /// draw and `None` while the game goes on.
    pub fn winner(&self) -> (r: Option<Option<Color>>)
        ensures
            r == self@.winner(),
            r is Some <==> self@.game_over(),
            self@.half_moves >= 100 ==> r == Some(None::<Color>),
            self@.half_moves < 100 && self@.black == Set::<int>::empty() ==> r == Some(Some(Color::White)),
            self@.half_moves < 100 && self@.black != Set::<int>::empty() && self@.white == Set::<int>::empty()
                ==> r == Some(Some(Color::Black)),
            self@.half_moves < 100 && self@.black != Set::<int>::empty() && self@.white != Set::<int>::empty()
                && self@.black.union(self@.white).union(self@.blocks) == below(49) ==> r == (if self@.black.len()
                < self@.white.len() {
                Some(Some(Color::White))
            } else if self@.white.len() < self@.black.len() {
                Some(Some(Color::Black))
            } else {
                Some(None)
            }),
            self@.half_moves < 100 && self@.black != Set::<int>::empty() && self@.white != Set::<int>::empty()
                && self@.black.union(self@.white).union(self@.blocks) != below(49) ==> r is None,
    {
        if self.half_move_clock >= 100 {
            return Some(None);
        }
        let black = self.colored_piece_bb(ColoredPiece::BlackPiece);
        let white = self.colored_piece_bb(ColoredPiece::WhitePiece);
        let block = self.colored_piece_bb(ColoredPiece::Block);
        if black.is_empty() {
            return Some(Some(Color::White));
        } else if white.is_empty() {
            return Some(Some(Color::Black));
        }
        let all = white.union(black).union(block);
        if all.0 != super::board::UNIVERSE_BITS {
            proof {
                super::board::lemma_geometry();
                assert(all@ =~= self@.black.union(self@.white).union(self@.blocks));
                if all@ == below(49) {
                    crate::bits::lemma_bits_eq(all.0, super::board::UNIVERSE_BITS);
                }
            }
            return None;
        }
        proof {
            super::board::lemma_geometry();
            assert(all@ =~= self@.black.union(self@.white).union(self@.blocks));
        }
        let black_n = black.len();
        let white_n = white.len();
        if black_n < white_n {
            Some(Some(Color::White))
        } else if black_n > white_n {
            Some(Some(Color::Black))
        } else {
            Some(None)
        }
    }

    /// after_move returns the Position reached by playing the given Move on
    /// the current Position. With `UPDATE_HASH` unset the checksum of the
    /// result is left at zero.
    pub fn after_move<const UPDATE_HASH: bool>(&self, m: Move) -> (r: Position)
        requires
            m.on_board(),
            self.ply_count < u16::MAX,
            m == Move::pass_move() || m.source_index() != m.target_index() ==> self.half_move_clock
                < u8::MAX,
        ensures
            r@ == self@.play(m),
            UPDATE_HASH && m == Move::pass_move() ==> r.checksum.value() == !self.checksum.value(),
            UPDATE_HASH && m != Move::pass_move() ==> r.hash_consistent(),
            UPDATE_HASH && self.hash_consistent() ==> r.hash_consistent(),
            !UPDATE_HASH ==> r.checksum.value() == 0,
    {
        proof {
            law_hash_side_flip(self.bitboards@[0].0, self.bitboards@[1].0);
        }
        let stm = self.side_to_move;
        if m == Move::pass() {
            let checksum = if UPDATE_HASH {
                self.checksum.flip()
            } else {
                crate::interface::hash::Hash::zero()
            };
            let r = Position {
                bitboards: self.bitboards,
                checksum,
                side_to_move: self.side_to_move.not(),
                ply_count: self.ply_count + 1,
                half_move_clock: self.half_move_clock + 1,
            };
            assert(r@ =~= self@.play(m));
            return r;
        }
        let stm_pieces = self.color_bb(stm);
        let xtm_pieces = self.color_bb(stm.not());

        let captured = BitBoard::single(m.target()).intersection(xtm_pieces);
        let from_to = BitBoard::from_square(m.target()).union(BitBoard::from_square(m.source()));

        // Move the captured pieces from xtm to stm.
        let new_xtm = xtm_pieces.symmetric_difference(captured);
        let new_stm = stm_pieces.symmetric_difference(captured).symmetric_difference(from_to);

        // Reset half move clock on a singular move.
        let half_move_clock = if m.is_single() {
            0
        } else {
            self.half_move_clock + 1
        };

        let (white, black) = if stm == Color::White {
            (new_stm, new_xtm)
        } else {
            (new_xtm, new_stm)
        };
        let checksum = if UPDATE_HASH {
            Position::get_hash(black, white, stm.not())
        } else {
            crate::interface::hash::Hash::zero()
        };
        let r = Position {
            bitboards: [black, white, self.colored_piece_bb(ColoredPiece::Block)],
            checksum,
            side_to_move: stm.not(),
            ply_count: self.ply_count + 1,
            half_move_clock,
        };
        proof {
            let st = self@;
            let t = m.target_index();
            let s = m.source_index();
            assert(from_to@ =~= set![s, t]);
            let theirs = st.stones(st.side.other());
            let cap = ring(t, 1).intersect(theirs);
            assert(captured@ =~= cap);
            assert(new_xtm@ =~= theirs.difference(cap));
            assert(r@ =~= st.play(m));
        }
        r
    }
}

/// The outcome of reading a FEN string of an Ataxx position.
pub enum Fen {
    /// The position read.
    Parsed(State),
    /// The string does not have four fields, but the given number.
    Fields(int),
    /// The piece placement field could not be read.
    BadPlacement(Placement),
    /// The side to move could not be read.
    BadSide,
    /// The half-move clock or the full-move number could not be read.
    BadNumber,
}

/// The letters of the piece placement field: Black stones first, then White
/// stones and blockers, then the other spellings of the two stones.
pub open spec fn placement_letters() -> Seq<char> {
    seq!['x', 'o', '-', 'X', 'b', 'B', 'O', 'w', 'W']
}

/// The piece that a letter of [`placement_letters`] stands for: 0 for a
/// Black stone, 1 for a White stone, 2 for a blocker.
pub open spec fn letter_piece(i: int) -> int {
    if i == 0 || 3 <= i <= 5 {
        0
    } else if i == 2 {
        2
    } else {
        1
    }
}

/// The placed letters, each turned into the piece that it stands for.
pub open spec fn letter_pieces(acc: Seq<(int, int)>) -> Seq<(int, int)> {
    acc.map_values(|e: (int, int)| (letter_piece(e.0), e.1))
}

/// Reads a FEN string of an Ataxx position: four fields separated by
/// spaces, for the piece placement (`x`, `X`, `b` or `B` for a Black stone,
/// `o`, `O`, `w` or `W` for a White one, `-` for a blocker), the side to
/// move, the half-move clock and the full-move number. The ply count is
/// twice the full-move number less two with Black to move, less one with
/// White to move.
pub open spec fn fen(t: Seq<char>) -> Fen {
    let parts = split(t, ' ');
    if parts.len() != 4 {
        Fen::Fields(parts.len() as int)
    } else {
        match placement(parts[0], 7, 7, placement_letters()) {
            Placement::Done(acc) => match color_text(parts[1]) {
                None => Fen::BadSide,
                Some(side) => if !decimal_fits(parts[2], 255) || !decimal_fits(parts[3], 65535) {
                    Fen::BadNumber
                } else {
                    Fen::Parsed(
                        State {
                            black: placed(letter_pieces(acc), 0),
                            white: placed(letter_pieces(acc), 1),
                            blocks: placed(letter_pieces(acc), 2),
                            side,
                            plies: plies_of(decimal(parts[3])->0, side == Color::White),
                            half_moves: decimal(parts[2])->0,
                        },
                    )
                },
            },
            other => Fen::BadPlacement(other),
        }
    }
}

/// PositionParseError represents an error encountered while parsing a FEN
/// string into a Position.
#[derive(Debug, PartialEq, Eq)]
pub enum PositionParseError {
    /// The string has the given number of fields instead of four.
    TooManyFields(usize),
    /// The piece placement field could not be read.
    BadPiecePlacement(PiecePlacementParseError),
    /// The side to move could not be read.
    BadSideToMove(TypeParseError),
    /// The half-move clock or the full-move number could not be read.
    BadHalfMoveClock(std::num::ParseIntError),
}

impl Position {
    /// Reads a Position from the FEN string `s[lo..hi]`, computing its Hash.
    pub fn parse(s: &[char], lo: usize, hi: usize) -> (r: Result<Position, PositionParseError>)
        requires
            lo <= hi <= s@.len(),
        ensures
            match fen(s@.subrange(lo as int, hi as int)) {
                Fen::Parsed(st) => r matches Ok(p) && p@ == st && p.hash_consistent(),
                Fen::Fields(n) => r matches Err(PositionParseError::TooManyFields(m)) && m == n,
                Fen::BadPlacement(o) => r matches Err(PositionParseError::BadPiecePlacement(e))
                    && placement_error(e, o, 7),
                Fen::BadSide => r matches Err(
                    PositionParseError::BadSideToMove(TypeParseError::StrError(n)),
                ) && n@ == "Color"@,
                Fen::BadNumber => r matches Err(PositionParseError::BadHalfMoveClock(_)),
            },
    {
        let ghost t = s@.subrange(lo as int, hi as int);
        let fields = split_ranges(s, lo, hi, ' ');
        let ghost parts = split(t, ' ');
        if fields.len() != 4 {
            return Err(PositionParseError::TooManyFields(fields.len()));
        }
        let (p0, p1) = fields[0];
        let (s0, s1) = fields[1];
        let (h0, h1) = fields[2];
        let (f0, f1) = fields[3];
        let table = ['x', 'o', '-', 'X', 'b', 'B', 'O', 'w', 'W'];
        proof {
            assert(table@ =~= placement_letters());
        }
        let acc = match piece_placement(s, p0, p1, 7, 7, &table) {
            Ok(acc) => acc,
            Err(e) => {
                return Err(PositionParseError::BadPiecePlacement(e));
            },
        };
        let side = match Color::parse(s, s0, s1) {
            Ok(side) => side,
            Err(e) => {
                return Err(PositionParseError::BadSideToMove(e));
            },
        };
        let half_move_clock = match parse_u8_field(s, h0, h1) {
            Ok(v) => v,
            Err(e) => {
                return Err(PositionParseError::BadHalfMoveClock(e));
            },
        };
        let ply_count = match ply_count(s, f0, f1, side == Color::White) {
            Ok(v) => v,
            Err(e) => {
                return Err(PositionParseError::BadHalfMoveClock(e));
            },
        };
        let mut bitboards = [BitBoard::empty(), BitBoard::empty(), BitBoard::empty()];
        let ghost done = letter_pieces(widen(acc@));
        let mut k: usize = 0;
        while k < acc.len()
            invariant
                0 <= k <= acc@.len(),
                done == letter_pieces(widen(acc@)),
                forall|j: int| 0 <= j < acc@.len() ==> (#[trigger] acc@[j]).0 < 9 && acc@[j].1 < 49,
                forall|i: int| 0 <= i < 3 ==> (#[trigger] bitboards@[i])@ == placed(done.take(k as int), i),
            decreases acc@.len() - k,
        {
            let (p, q) = acc[k];
            let square = Square::from_index(q);
            let i: usize = if p == 0 || (3 <= p && p <= 5) {
                0
            } else if p == 2 {
                2
            } else {
                1
            };
            let mut bb = bitboards[i];
            bb.insert(square);
            bitboards[i] = bb;
            proof {
                assert(done.take(k + 1).drop_last() =~= done.take(k as int));
                assert(done.take(k + 1).last() == (i as int, q as int));
            }
            k = k + 1;
        }
        proof {
            assert(done.take(k as int) =~= done);
        }
        let r = Position::new(
            bitboards[0],
            bitboards[1],
            bitboards[2],
            side,
            ply_count,
            half_move_clock,
        );
        proof {
            assert(r@ =~= match fen(t) {
                Fen::Parsed(st) => st,
                _ => r@,
            });
        }
        Ok(r)
    }
}

impl core::str::FromStr for Position {
    type Err = PositionParseError;

    fn from_str(s: &str) -> (r: Result<Position, PositionParseError>)
        ensures
            match fen(s@) {
                Fen::Parsed(st) => r matches Ok(p) && p@ == st && p.hash_consistent(),
                Fen::Fields(n) => r matches Err(PositionParseError::TooManyFields(m)) && m == n,
                Fen::BadPlacement(o) => r matches Err(PositionParseError::BadPiecePlacement(e))
                    && placement_error(e, o, 7),
                Fen::BadSide => r matches Err(
                    PositionParseError::BadSideToMove(TypeParseError::StrError(n)),
                ) && n@ == "Color"@,
                Fen::BadNumber => r matches Err(PositionParseError::BadHalfMoveClock(_)),
            },
    {
        let chars = chars_of(s);
        proof {
            assert(chars@.subrange(0, chars@.len() as int) =~= s@);
        }
        Position::parse(chars.as_slice(), 0, chars.len())
    }
}

impl Default for Position {
    /// The standard starting position, [`Position::STARTPOS`]: Black stones
    /// on g1 and a7, White stones on a1 and g7, Black to move.
    fn default() -> (r: Position)
        ensures
            r@ == (State {
                black: set![6int, 42int],
                white: set![0int, 48int],
                blocks: Set::<int>::empty(),
                side: Color::Black,
                plies: 0,
                half_moves: 0,
            }),
            r.hash_consistent(),
    {
        let black = BitBoard::from_square(Square::G1).union(BitBoard::from_square(Square::A7));
        let white = BitBoard::from_square(Square::A1).union(BitBoard::from_square(Square::G7));
        let r = Position::new(black, white, BitBoard::empty(), Color::Black, 0, 0);
        proof {
            assert(black@ =~= set![6int, 42int]);
            assert(white@ =~= set![0int, 48int]);
        }
        r
    }
}

impl State {
    /// The letter of the Square of index `i` in the picture of the
    /// position: the piece on it, or `.`.
    pub open spec fn cell(self, i: int) -> char {
        if self.black.contains(i) {
            'x'
        } else if self.white.contains(i) {
            'o'
        } else if self.blocks.contains(i) {
            '-'
        } else {
            '.'
        }
    }

    /// The letters of all the Squares, by index.
    pub open spec fn cells(self) -> Seq<char> {
        Seq::new(49, |i: int| self.cell(i))
    }

    /// The picture of the position: the Squares of each Rank, the top Rank
    /// first, with the Ranks' numbers and the Files' letters, then the side
    /// to move.
    pub open spec fn picture(self) -> Seq<char> {
        seq![' '] + rank_lines(self.cells(), 7, 7, 0, true) + seq!['a', ' ', 'b', ' ', 'c', ' ', 'd', ' ', 'e', ' ', 'f', ' ', 'g', '\n', '\n'] + side_label()
            + color_name(self.side) + seq!['\n']
    }
}

/// The place of the cell of the Square of index `sq` in the picture of a
/// position: after the leading space, the lines of the Ranks above it, of
/// nineteen characters each, then two characters for each File before it.
pub open spec fn picture_place(sq: int) -> int {
    1 + (6 - sq / 7) * 19 + 2 * (sq % 7)
}

/// In the picture of a position the cell of each Square shows what stands
/// on it: `x` for a Black stone, `o` for a White stone, `-` for a blocker,
/// and `.` only when the Square holds none of them.
pub proof fn law_picture_cells(st: State, sq: int)
    requires
        0 <= sq < 49,
    ensures
        st.black.contains(sq) ==> st.picture()[picture_place(sq)] == 'x',
        !st.black.contains(sq) && st.white.contains(sq) ==> st.picture()[picture_place(sq)] == 'o',
        !st.black.contains(sq) && !st.white.contains(sq) && st.blocks.contains(sq)
            ==> st.picture()[picture_place(sq)] == '-',
        st.picture()[picture_place(sq)] == '.' <==> !st.black.contains(sq) && !st.white.contains(sq)
            && !st.blocks.contains(sq),
{
    let r = sq / 7;
    let x = sq % 7;
    assert(r * 7 + x == sq);
    crate::interface::art::lemma_numbered_lines_len(st.cells(), 7, 7, 0);
    crate::interface::art::lemma_numbered_lines_at(st.cells(), 7, 7, 0, r, x);
    let lines = rank_lines(st.cells(), 7, 7, 0, true);
    assert((6 - r) * 19 + 2 * x < 133);
    assert(st.picture()[picture_place(sq)] == lines[(7 - 1 - r) * (2 * 7 + 5) + 2 * x]);
    assert(st.cells()[sq] == st.cell(sq));
}

impl Position {
    /// The picture of the Position as ASCII art: the Squares of each Rank,
    /// the top Rank first, with the Ranks' numbers and the Files' letters,
    /// then the side to move.
    pub fn to_string(&self) -> (r: String)
        ensures
            r@ == self@.picture(),
            forall|sq: int|
                0 <= sq < 49 && self@.blocks.contains(sq) && !self@.black.contains(sq)
                    && !self@.white.contains(sq) ==> #[trigger] r@[picture_place(sq)] == '-',
            forall|sq: int|
                0 <= sq < 49 ==> (#[trigger] r@[picture_place(sq)] == '.' <==> !self@.black.contains(sq)
                    && !self@.white.contains(sq) && !self@.blocks.contains(sq)),
    {
        let mut cells: Vec<char> = Vec::new();
        let mut i: u8 = 0;
        while i < 49
            invariant
                i <= 49,
                cells@ == Seq::new(i as nat, |k: int| self@.cell(k)),
            decreases 49 - i,
        {
            let c = match self.at(Square::from_index(i)) {
                Some(ColoredPiece::BlackPiece) => 'x',
                Some(ColoredPiece::WhitePiece) => 'o',
                Some(ColoredPiece::Block) => '-',
                None => '.',
            };
            cells.push(c);
            i = i + 1;
            proof {
                assert(cells@ =~= Seq::new(i as nat, |k: int| self@.cell(k)));
            }
        }
        let mut out: Vec<char> = Vec::new();
        out.push(' ');
        push_rank_lines(&mut out, cells.as_slice(), 7, 7, true);
        push_chars(&mut out, &['a', ' ', 'b', ' ', 'c', ' ', 'd', ' ', 'e', ' ', 'f', ' ', 'g', '\n', '\n']);
        push_side_label(&mut out);
        match self.side_to_move {
            Color::Black => out.push('x'),
            Color::White => out.push('o'),
        }
        out.push('\n');
        proof {
            assert(cells@ =~= self@.cells());
            assert(out@ =~= self@.picture());
            assert forall|sq: int| 0 <= sq < 49 implies (#[trigger] out@[picture_place(sq)] == '.' <==> !self@.black.contains(sq)
                && !self@.white.contains(sq) && !self@.blocks.contains(sq)) && (self@.blocks.contains(sq)
                && !self@.black.contains(sq) && !self@.white.contains(sq) ==> out@[picture_place(sq)] == '-') by {
                law_picture_cells(self@, sq);
            }
        }
        string_of(out.as_slice())
    }
}

impl Position {
    /// Returns `true` if every piece of the Position lies on the board.
    pub fn is_on_board(&self) -> (r: bool)
        ensures
            r == self@.on_board(),
    {
        self.bitboards[0].is_on_board() && self.bitboards[1].is_on_board() && self.bitboards[2].is_on_board()
    }
}

impl FENParsablePosition for Position {
    type Square = Square;
    type ColoredPiece = ColoredPiece;

    open spec fn piece_at(&self, sq: Square) -> Option<ColoredPiece> {
        self.at_spec(sq)
    }

    fn insert(&mut self, sq: Square, piece: ColoredPiece)
        ensures
            final(self).bitboards@[piece as int]@ == old(self).bitboards@[piece as int]@.insert(sq as int),
            forall|k: int| 0 <= k < 3 && k != piece as int ==> final(self).bitboards@[k] == old(self).bitboards@[k],
            final(self).checksum == old(self).checksum,
            final(self).side_to_move == old(self).side_to_move,
    {
        Position::insert(self, sq, piece)
    }

    fn remove(&mut self, sq: Square) -> (r: Option<ColoredPiece>) {
        Position::remove(self, sq)
    }

    fn at(&self, sq: Square) -> (r: Option<ColoredPiece>) {
        Position::at(self, sq)
    }
}

} // verus!
