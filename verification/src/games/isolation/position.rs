//! Isolation Positions: the rules of the game over the pawn Squares and the
//! set of tiles, and the representation that follows them.
use vstd::prelude::*;
use crate::interface::FENParsablePosition;
use crate::interface::art::{push_chars, push_rank_lines, push_side_label, rank_lines, side_label};
use core::ops::Not;
use crate::bits::{below, sym};
use crate::interface::bitboard::ascending;
use crate::interface::hash::pair_hash;
use crate::interface::TypeParseError;
use crate::interface::parse::{
    chars_of, decimal, decimal_fits, last_placed, piece_placement, placed, placement,
    placement_error, plies_of, ply_count, split, split_ranges, widen, Placement,
    PiecePlacementParseError,
    string_of,
};
use super::board::{BitBoard, Square};
use super::moves::{zone, Move};
use super::piece::{color_name, color_text, Color, ColoredPiece, Piece};

verus! {

/// The Moves to each of the target Squares in turn, each removing one of the
/// allowed tiles other than its target, by ascending tile.
pub open spec fn tile_moves(targets: Seq<int>, allowed: Set<int>) -> Seq<Move>
    decreases targets.len(),
{
    if targets.len() == 0 {
        Seq::empty()
    } else {
        let t = targets.last();
        tile_moves(targets.drop_last(), allowed) + ascending(allowed.remove(t)).map_values(
            |x: int| Move::packed(t, x),
        )
    }
}

/// The abstract state of an Isolation game.
pub struct State {
    /// The Square of the White pawn.
    pub white: int,
    /// The Square of the Black pawn.
    pub black: int,
    /// The Squares holding tiles.
    pub tiles: Set<int>,
    /// The Color to move.
    pub side: Color,
    /// The number of half-moves played.
    pub plies: int,
}

impl State {
    /// The Square of the pawn of the given Color.
    pub open spec fn pawn(self, color: Color) -> int {
        match color {
            Color::White => self.white,
            Color::Black => self.black,
        }
    }

    /// Every piece lies on the board.
    pub open spec fn on_board(self) -> bool {
        &&& 0 <= self.white < 48
        &&& 0 <= self.black < 48
        &&& self.tiles.subset_of(below(48))
    }

    /// The tiles a Move may use: every tile but the one under the opposing
    /// pawn.
    pub open spec fn allowed(self) -> Set<int> {
        self.tiles.remove(self.pawn(self.side.other()))
    }

    /// The Squares the pawn to move may step to: the allowed tiles next to
    /// it.
    pub open spec fn targets(self) -> Set<int> {
        zone(set![self.pawn(self.side)]).remove(self.pawn(self.side)).intersect(self.allowed())
    }

    /// The Moves of the position, in the order in which they are generated:
    /// by ascending target, then by ascending tile removed.
    pub open spec fn moves(self) -> Seq<Move> {
        tile_moves(ascending(self.targets()), self.allowed())
    }

    /// The game is over when the side to move has no Move.
    pub open spec fn game_over(self) -> bool {
        self.moves().len() == 0
    }

    /// The winner: the side that just moved, once the side to move is stuck.
    pub open spec fn winner(self) -> Option<Option<Color>> {
        if self.game_over() {
            Some(Some(self.side.other()))
        } else {
            None
        }
    }

    /// The state after the given Move: the pawn to move stands on the pawn
    /// Square of the Move, and the tile Square of the Move changes.
    pub open spec fn play(self, m: Move) -> State {
        State {
            white: if self.side == Color::White {
                m.pawn_index()
            } else {
                self.white
            },
            black: if self.side == Color::Black {
                m.pawn_index()
            } else {
                self.black
            },
            tiles: sym(self.tiles, set![m.tile_index()]),
            side: self.side.other(),
            plies: self.plies + 1,
        }
    }
}

/// The hash of a position with the given pawn Squares, tiles and side to
/// move: the pair hash of the pawn pair and the tiles, complemented for
/// Black.
pub open spec fn position_hash(white: int, black: int, tiles: u64, side: Color) -> u64 {
    let a = (white * 48 + black) as u64;
    if side == Color::Black {
        !pair_hash(a, tiles)
    } else {
        pair_hash(a, tiles)
    }
}

/// Two positions which differ only in their side to move have complementary
/// hashes.
pub proof fn law_hash_side_flip(white: int, black: int, tiles: u64)
    ensures
        position_hash(white, black, tiles, Color::Black) == !position_hash(
            white,
            black,
            tiles,
            Color::White,
        ),
{
    crate::bits::lemma_not_not(pair_hash((white * 48 + black) as u64, tiles));
}

/// Position represents the snapshot of an Isolation Board, the state of an
/// Isolation game at a single point in time.
#[derive(Copy, Clone)]
pub struct Position {
    /// The Squares of the White and the Black pawn, in this order.
    pub pawns: [Square; 2],
    /// The Squares holding tiles.
    pub tiles: BitBoard,
    /// checksum stores the semi-unique Hash of the current Position.
    pub checksum: crate::interface::hash::Hash,
    /// side_to_move stores the Color whose turn to move it currently is.
    pub side_to_move: Color,
    /// The number of half-moves played.
    pub ply_count: u16,
}

impl View for Position {
    type V = State;

    open spec fn view(&self) -> State {
        State {
            white: self.pawns@[0] as int,
            black: self.pawns@[1] as int,
            tiles: self.tiles@,
            side: self.side_to_move,
            plies: self.ply_count as int,
        }
    }
}

impl Position {
    /// The checksum matches the one computed from the pawns and the tiles.
    pub open spec fn hash_consistent(self) -> bool {
        self.checksum.value() == position_hash(
            self.pawns@[0] as int,
            self.pawns@[1] as int,
            self.tiles.0,
            self.side_to_move,
        )
    }

    /// The FEN string of the standard starting position.
    pub const STARTPOS: &'static str = "--------/--------/p-------/-------P/--------/-------- w 1";

    /// Computes the Hash of a position from its pawn Squares, its tiles and
    /// its side to move. Positions which only differ in side to move have
    /// complementary Hashes.
    pub fn get_hash(pawns: [Square; 2], tiles: BitBoard, stm: Color) -> (r: crate::interface::hash::Hash)
        ensures
            r.value() == position_hash(pawns@[0] as int, pawns@[1] as int, tiles.0, stm),
    {
        let a = pawns[0] as u64 * 48 + pawns[1] as u64;
        let hash = crate::interface::hash::hash_pair(a, tiles.0);
        match stm {
            Color::Black => crate::interface::hash::Hash::new(!hash),
            Color::White => crate::interface::hash::Hash::new(hash),
        }
    }

    /// Creates a Position from its pawn Squares, tiles, side to move and ply
    /// count, computing its Hash.
    pub fn new(pawns: [Square; 2], tiles: BitBoard, side_to_move: Color, ply_count: u16) -> (r:
        Position)
        ensures
            r.pawns == pawns,
            r.tiles == tiles,
            r.side_to_move == side_to_move,
            r.ply_count == ply_count,
            r.hash_consistent(),
    {
        Position { pawns, tiles, checksum: Position::get_hash(pawns, tiles, side_to_move), side_to_move, ply_count }
    }

    /// Returns a semi-unique checksum of the current Position.
    pub fn hash(&self) -> (r: crate::interface::hash::Hash)
        ensures
            r == self.checksum,
    {
        self.checksum
    }

    /// Returns the Color to move.
    pub fn side_to_move(&self) -> (r: Color)
        ensures
            r == self.side_to_move,
    {
        self.side_to_move
    }

    /// Isolation has no half-move clock: it is always zero.
    pub fn half_move_clock(&self) -> (r: usize)
        ensures
            r == 0,
    {
        0
    }

    /// Returns the number of half-moves played.
    pub fn ply_count(&self) -> (r: usize)
        ensures
            r == self.ply_count,
    {
        self.ply_count as usize
    }

    /// The Square of the pawn of the given Color.
    fn pawn(&self, color: Color) -> (r: Square)
        ensures
            r as int == self@.pawn(color),
    {
        match color {
            Color::White => self.pawns[0],
            Color::Black => self.pawns[1],
        }
    }

    /// Puts the pawn of the given Color on the given Square.
    fn set_pawn(&mut self, color: Color, square: Square)
        ensures
            final(self).pawns@ == old(self).pawns@.update(color as int, square),
            final(self).tiles == old(self).tiles,
            final(self).checksum == old(self).checksum,
            final(self).side_to_move == old(self).side_to_move,
            final(self).ply_count == old(self).ply_count,
    {
        match color {
            Color::White => {
                self.pawns[0] = square;
            },
            Color::Black => {
                self.pawns[1] = square;
            },
        }
    }

    /// Returns the BitBoard of the given Piece: both pawns, or the tiles.
    pub fn piece_bb(&self, piece: Piece) -> (r: BitBoard)
        ensures
            r@ == (match piece {
                Piece::Pawn => set![self@.white, self@.black],
                Piece::Tile => self@.tiles,
            }),
    {
        match piece {
            Piece::Pawn => {
                let r = BitBoard::from_square(self.pawns[0]).with(self.pawns[1]);
                assert(r@ =~= set![self@.white, self@.black]);
                r
            },
            Piece::Tile => self.tiles,
        }
    }

    /// Returns the BitBoard of the pawn of the given Color.
    pub fn color_bb(&self, color: Color) -> (r: BitBoard)
        ensures
            r@ == set![self@.pawn(color)],
    {
        BitBoard::from_square(self.pawn(color))
    }

    /// Returns the BitBoard of the given ColoredPiece.
    pub fn colored_piece_bb(&self, piece: ColoredPiece) -> (r: BitBoard)
        ensures
            r@ == (match piece {
                ColoredPiece::WhitePawn => set![self@.white],
                ColoredPiece::BlackPawn => set![self@.black],
                ColoredPiece::Tile => self@.tiles,
            }),
    {
        match piece {
            ColoredPiece::WhitePawn => BitBoard::from_square(self.pawns[0]),
            ColoredPiece::BlackPawn => BitBoard::from_square(self.pawns[1]),
            ColoredPiece::Tile => self.tiles,
        }
    }

    /// The piece on the given Square, as [`Position::at`] finds it.
    pub open spec fn at_spec(self, sq: Square) -> Option<ColoredPiece> {
        if self@.white == sq as int {
            Some(ColoredPiece::WhitePawn)
        } else if self@.black == sq as int {
            Some(ColoredPiece::BlackPawn)
        } else if self@.tiles.contains(sq as int) {
            Some(ColoredPiece::Tile)
        } else {
            None
        }
    }

    /// Returns the piece on the given Square, looking at the White pawn, the
    /// Black pawn and the tiles in this order.
    pub fn at(&self, sq: Square) -> (r: Option<ColoredPiece>)
        ensures
            r == self.at_spec(sq),
    {
        if self.pawns[0] == sq {
            Some(ColoredPiece::WhitePawn)
        } else if self.pawns[1] == sq {
            Some(ColoredPiece::BlackPawn)
        } else if self.tiles.contains(sq) {
            Some(ColoredPiece::Tile)
        } else {
            None
        }
    }

    /// Adds the given piece to the given Square: a pawn is moved there, a
    /// tile is laid there.
    pub fn insert(&mut self, sq: Square, piece: ColoredPiece)
        ensures
            final(self).pawns@ == (match piece {
                ColoredPiece::WhitePawn => old(self).pawns@.update(0, sq),
                ColoredPiece::BlackPawn => old(self).pawns@.update(1, sq),
                ColoredPiece::Tile => old(self).pawns@,
            }),
            final(self).tiles@ == (match piece {
                ColoredPiece::Tile => old(self).tiles@.insert(sq as int),
                _ => old(self).tiles@,
            }),
            final(self).checksum == old(self).checksum,
            final(self).side_to_move == old(self).side_to_move,
            final(self).ply_count == old(self).ply_count,
    {
        match piece {
            ColoredPiece::WhitePawn => self.set_pawn(Color::White, sq),
            ColoredPiece::BlackPawn => self.set_pawn(Color::Black, sq),
            ColoredPiece::Tile => {
                let mut tiles = self.tiles;
                tiles.insert(sq);
                self.tiles = tiles;
            },
        }
    }

    /// Reports the piece on the given Square, removing it when it is a tile;
    /// a pawn stays where it is.
    pub fn remove(&mut self, sq: Square) -> (r: Option<ColoredPiece>)
        ensures
            r == old(self).at_spec(sq),
            r == Some(ColoredPiece::Tile) ==> final(self).tiles@ == old(self).tiles@.intersect(
                below(48),
            ).remove(sq as int),
            r != Some(ColoredPiece::Tile) ==> final(self).tiles == old(self).tiles,
            final(self).pawns == old(self).pawns,
            final(self).checksum == old(self).checksum,
            final(self).side_to_move == old(self).side_to_move,
            final(self).ply_count == old(self).ply_count,
    {
        if self.pawn(Color::White) == sq {
            Some(ColoredPiece::WhitePawn)
        } else if self.pawn(Color::Black) == sq {
            Some(ColoredPiece::BlackPawn)
        } else if self.tiles.contains(sq) {
            let mut tiles = self.tiles;
            tiles.remove(sq);
            self.tiles = tiles;
            Some(ColoredPiece::Tile)
        } else {
            None
        }
    }

    /// after_move returns the Position reached by playing the given Move on
    /// the current Position. With `UPDATE_HASH` unset the checksum of the
    /// result is left at zero.
    pub fn after_move<const UPDATE_HASH: bool>(&self, m: Move) -> (r: Position)
        requires
            m.on_board(),
            self.ply_count < u16::MAX,
        ensures
            r@ == self@.play(m),
            UPDATE_HASH ==> r.hash_consistent(),
            !UPDATE_HASH ==> r.checksum.value() == 0,
    {
        let stm = self.side_to_move;
        let mut pawns = self.pawns;
        match stm {
            Color::White => {
                pawns[0] = m.pawn();
            },
            Color::Black => {
                pawns[1] = m.pawn();
            },
        }
        let tiles = self.tiles.symmetric_difference(BitBoard::from_square(m.tile()));
        let checksum = if UPDATE_HASH {
            Position::get_hash(pawns, tiles, stm.not())
        } else {
            crate::interface::hash::Hash::zero()
        };
        let r = Position { pawns, tiles, checksum, side_to_move: stm.not(), ply_count: self.ply_count + 1 };
        assert(r@ =~= self@.play(m));
        r
    }
}

/// The outcome of reading a FEN string of an Isolation position.
pub enum Fen {
    /// The position read.
    Parsed(State),
    /// The string does not have three fields, but the given number.
    Fields(int),
    /// The piece placement field could not be read.
    BadPlacement(Placement),
    /// The side to move could not be read.
    BadSide,
    /// The full-move number could not be read.
    BadNumber,
}

/// Reads a FEN string of an Isolation position: three fields separated by
/// spaces, for the piece placement (`P` White pawn, `p` Black pawn, `-`
/// tile), the side to move and the full-move number. A pawn missing from
/// the placement stands on the first Square.
pub open spec fn fen(t: Seq<char>) -> Fen {
    let parts = split(t, ' ');
    if parts.len() != 3 {
        Fen::Fields(parts.len() as int)
    } else {
        match placement(parts[0], 8, 6, seq!['P', 'p', '-']) {
            Placement::Done(acc) => match color_text(parts[1]) {
                None => Fen::BadSide,
                Some(side) => if !decimal_fits(parts[2], 65535) {
                    Fen::BadNumber
                } else {
                    Fen::Parsed(
                        State {
                            white: last_placed(acc, 0, 0),
                            black: last_placed(acc, 1, 0),
                            tiles: placed(acc, 2),
                            side,
                            plies: plies_of(decimal(parts[2])->0, side == Color::White),
                        },
                    )
                },
            },
            other => Fen::BadPlacement(other),
        }
    }
}

/// PositionParseError represents an error encountered while parsing a FEN
/// string into a Position.
#[derive(Debug, PartialEq, Eq)]
pub enum PositionParseError {
    /// The string has the given number of fields instead of three.
    TooManyFields(usize),
    /// The piece placement field could not be read.
    BadPiecePlacement(PiecePlacementParseError),
    /// The side to move could not be read.
    BadSideToMove(TypeParseError),
    /// The full-move number could not be read.
    BadFullMoveCount(std::num::ParseIntError),
}

impl Position {
    /// Reads a Position from the FEN string `s[lo..hi]`, computing its Hash.
    pub fn parse(s: &[char], lo: usize, hi: usize) -> (r: Result<Position, PositionParseError>)
        requires
            lo <= hi <= s@.len(),
        ensures
            match fen(s@.subrange(lo as int, hi as int)) {
                Fen::Parsed(st) => r matches Ok(p) && p@ == st && p.hash_consistent(),
                Fen::Fields(n) => r matches Err(PositionParseError::TooManyFields(m)) && m == n,
                Fen::BadPlacement(o) => r matches Err(PositionParseError::BadPiecePlacement(e))
                    && placement_error(e, o, 6),
                Fen::BadSide => r matches Err(
                    PositionParseError::BadSideToMove(TypeParseError::StrError(n)),
                ) && n@ == "Color"@,
                Fen::BadNumber => r matches Err(PositionParseError::BadFullMoveCount(_)),
            },
    {
        let ghost t = s@.subrange(lo as int, hi as int);
        let fields = split_ranges(s, lo, hi, ' ');
        if fields.len() != 3 {
            return Err(PositionParseError::TooManyFields(fields.len()));
        }
        let (p0, p1) = fields[0];
        let (s0, s1) = fields[1];
        let (f0, f1) = fields[2];
        let table = ['P', 'p', '-'];
        proof {
            assert(table@ =~= seq!['P', 'p', '-']);
        }
        let acc = match piece_placement(s, p0, p1, 8, 6, &table) {
            Ok(acc) => acc,
            Err(e) => {
                return Err(PositionParseError::BadPiecePlacement(e));
            },
        };
        let side = match Color::parse(s, s0, s1) {
            Ok(side) => side,
            Err(e) => {
                return Err(PositionParseError::BadSideToMove(e));
            },
        };
        let ply_count = match ply_count(s, f0, f1, side == Color::White) {
            Ok(v) => v,
            Err(e) => {
                return Err(PositionParseError::BadFullMoveCount(e));
            },
        };
        let mut pawns = [Square::A1, Square::A1];
        let mut tiles = BitBoard::empty();
        let ghost done = widen(acc@);
        let mut k: usize = 0;
        while k < acc.len()
            invariant
                0 <= k <= acc@.len(),
                done == widen(acc@),
                forall|j: int| 0 <= j < acc@.len() ==> (#[trigger] acc@[j]).0 < 3 && acc@[j].1 < 48,
                pawns@[0] as int == last_placed(done.take(k as int), 0, 0),
                pawns@[1] as int == last_placed(done.take(k as int), 1, 0),
                tiles@ == placed(done.take(k as int), 2),
            decreases acc@.len() - k,
        {
            let (p, q) = acc[k];
            let square = Square::from_index(q);
            if p == 0 {
                pawns[0] = square;
            } else if p == 1 {
                pawns[1] = square;
            } else {
                tiles.insert(square);
            }
            proof {
                assert(done.take(k + 1).drop_last() =~= done.take(k as int));
                assert(done.take(k + 1).last() == (p as int, q as int));
            }
            k = k + 1;
        }
        proof {
            assert(done.take(k as int) =~= done);
        }
        let r = Position::new(pawns, tiles, side, ply_count);
        proof {
            assert(r@ =~= match fen(t) {
                Fen::Parsed(st) => st,
                _ => r@,
            });
        }
        Ok(r)
    }
}

impl core::str::FromStr for Position {
    type Err = PositionParseError;

    fn from_str(s: &str) -> (r: Result<Position, PositionParseError>)
        ensures
            match fen(s@) {
                Fen::Parsed(st) => r matches Ok(p) && p@ == st && p.hash_consistent(),
                Fen::Fields(n) => r matches Err(PositionParseError::TooManyFields(m)) && m == n,
                Fen::BadPlacement(o) => r matches Err(PositionParseError::BadPiecePlacement(e))
                    && placement_error(e, o, 6),
                Fen::BadSide => r matches Err(
                    PositionParseError::BadSideToMove(TypeParseError::StrError(n)),
                ) && n@ == "Color"@,
                Fen::BadNumber => r matches Err(PositionParseError::BadFullMoveCount(_)),
            },
    {
        let chars = chars_of(s);
        proof {
            assert(chars@.subrange(0, chars@.len() as int) =~= s@);
        }
        Position::parse(chars.as_slice(), 0, chars.len())
    }
}

impl Default for Position {
    /// The standard starting position, [`Position::STARTPOS`]: the White pawn
    /// on h3, the Black pawn on a4, tiles on every other Square, White to
    /// move.
    fn default() -> (r: Position)
        ensures
            r@ == (State {
                white: 23,
                black: 24,
                tiles: below(48).remove(23).remove(24),
                side: Color::White,
                plies: 1,
            }),
            r.hash_consistent(),
    {
        let tiles = BitBoard::universe().without(Square::H3).without(Square::A4);
        let r = Position::new([Square::H3, Square::A4], tiles, Color::White, 1);
        proof {
            assert(tiles@ =~= below(48).remove(23).remove(24));
        }
        r
    }
}

impl State {
    /// The letter of the Square of index `i` in the picture of the
    /// position: the piece on it, or `.`.
    pub open spec fn cell(self, i: int) -> char {
        if self.white == i {
            'P'
        } else if self.black == i {
            'p'
        } else if self.tiles.contains(i) {
            '-'
        } else {
            '.'
        }
    }

    /// The letters of all the Squares, by index.
    pub open spec fn cells(self) -> Seq<char> {
        Seq::new(48, |i: int| self.cell(i))
    }

    /// The picture of the position: the Squares of each Rank, the top Rank
    /// first, with the Ranks' numbers and the Files' letters, then the side
    /// to move.
    pub open spec fn picture(self) -> Seq<char> {
        seq![' '] + rank_lines(self.cells(), 8, 6, 0, true) + seq!['a', ' ', 'b', ' ', 'c', ' ', 'd', ' ', 'e', ' ', 'f', ' ', 'g', ' ', 'h', '\n', '\n'] + side_label()
            + color_name(self.side) + seq!['\n']
    }
}

/// The place of the cell of the Square of index `sq` in the picture of a
/// position: after the leading space, the lines of the Ranks above it, of
/// twenty-one characters each, then two characters for each File before it.
pub open spec fn picture_place(sq: int) -> int {
    1 + (5 - sq / 8) * 21 + 2 * (sq % 8)
}

/// In the picture of a position the cell of each Square shows what stands
/// on it: `P` for the White pawn, `p` for the Black pawn, `-` for a tile,
/// and `.` only when the Square holds none of them.
pub proof fn law_picture_cells(st: State, sq: int)
    requires
        0 <= sq < 48,
    ensures
        st.white == sq ==> st.picture()[picture_place(sq)] == 'P',
        st.white != sq && st.black == sq ==> st.picture()[picture_place(sq)] == 'p',
        st.white != sq && st.black != sq && st.tiles.contains(sq) ==> st.picture()[picture_place(sq)] == '-',
        st.picture()[picture_place(sq)] == '.' <==> st.white != sq && st.black != sq && !st.tiles.contains(
            sq,
        ),
{
    let r = sq / 8;
    let x = sq % 8;
    assert(r * 8 + x == sq);
    crate::interface::art::lemma_numbered_lines_len(st.cells(), 8, 6, 0);
    crate::interface::art::lemma_numbered_lines_at(st.cells(), 8, 6, 0, r, x);
    let lines = rank_lines(st.cells(), 8, 6, 0, true);
    assert((5 - r) * 21 + 2 * x < 126);
    assert(st.picture()[picture_place(sq)] == lines[(6 - 1 - r) * (2 * 8 + 5) + 2 * x]);
    assert(st.cells()[sq] == st.cell(sq));
}

impl Position {
    /// The picture of the Position as ASCII art: the Squares of each Rank,
    /// the top Rank first, with the Ranks' numbers and the Files' letters,
    /// then the side to move.
    pub fn to_string(&self) -> (r: String)
        ensures
            r@ == self@.picture(),
            forall|sq: int|
                0 <= sq < 48 && self@.tiles.contains(sq) && self@.white != sq && self@.black != sq
                    ==> #[trigger] r@[picture_place(sq)] == '-',
            forall|sq: int|
                0 <= sq < 48 ==> (#[trigger] r@[picture_place(sq)] == '.' <==> self@.white != sq
                    && self@.black != sq && !self@.tiles.contains(sq)),
    {
        let mut cells: Vec<char> = Vec::new();
        let mut i: u8 = 0;
        while i < 48
            invariant
                i <= 48,
                cells@ == Seq::new(i as nat, |k: int| self@.cell(k)),
            decreases 48 - i,
        {
            let c = match self.at(Square::from_index(i)) {
                Some(ColoredPiece::WhitePawn) => 'P',
                Some(ColoredPiece::BlackPawn) => 'p',
                Some(ColoredPiece::Tile) => '-',
                None => '.',
            };
            cells.push(c);
            i = i + 1;
            proof {
                assert(cells@ =~= Seq::new(i as nat, |k: int| self@.cell(k)));
            }
        }
        let mut out: Vec<char> = Vec::new();
        out.push(' ');
        push_rank_lines(&mut out, cells.as_slice(), 8, 6, true);
        push_chars(&mut out, &['a', ' ', 'b', ' ', 'c', ' ', 'd', ' ', 'e', ' ', 'f', ' ', 'g', ' ', 'h', '\n', '\n']);
        push_side_label(&mut out);
        match self.side_to_move {
            Color::White => out.push('w'),
            Color::Black => out.push('b'),
        }
        out.push('\n');
        proof {
            assert(cells@ =~= self@.cells());
            assert(out@ =~= self@.picture());
            assert forall|sq: int| 0 <= sq < 48 implies (#[trigger] out@[picture_place(sq)] == '.' <==> self@.white
                != sq && self@.black != sq && !self@.tiles.contains(sq)) && (self@.tiles.contains(sq)
                && self@.white != sq && self@.black != sq ==> out@[picture_place(sq)] == '-') by {
                law_picture_cells(self@, sq);
            }
        }
        string_of(out.as_slice())
    }
}

impl Position {
    /// Returns `true` if every piece of the Position lies on the board.
    pub fn is_on_board(&self) -> (r: bool)
        ensures
            r == self@.on_board(),
    {
        self.tiles.is_on_board()
    }
}

impl FENParsablePosition for Position {
    type Square = Square;
    type ColoredPiece = ColoredPiece;

    open spec fn piece_at(&self, sq: Square) -> Option<ColoredPiece> {
        self.at_spec(sq)
    }

    fn insert(&mut self, sq: Square, piece: ColoredPiece)
        ensures
            final(self).pawns@ == (match piece {
                ColoredPiece::WhitePawn => old(self).pawns@.update(0, sq),
                ColoredPiece::BlackPawn => old(self).pawns@.update(1, sq),
                ColoredPiece::Tile => old(self).pawns@,
            }),
            final(self).tiles@ == (match piece {
                ColoredPiece::Tile => old(self).tiles@.insert(sq as int),
                _ => old(self).tiles@,
            }),
            final(self).checksum == old(self).checksum,
            final(self).side_to_move == old(self).side_to_move,
    {
        Position::insert(self, sq, piece)
    }

    fn remove(&mut self, sq: Square) -> (r: Option<ColoredPiece>) {
        Position::remove(self, sq)
    }

    fn at(&self, sq: Square) -> (r: Option<ColoredPiece>) {
        Position::at(self, sq)
    }
}

} // verus!
