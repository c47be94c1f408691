//! Isolation Moves and the Squares next to a pawn.
use vstd::prelude::*;
use crate::interface::MoveType;
use crate::bits::{below, lemma_u16_fields, lemma_u16_pack};
use crate::interface::bitboard::{east_set, north_set, south_set, west_set};
use crate::interface::TypeParseError;
use crate::interface::parse::{bad_leading_square, chars_of, law_square_name_text, square_chars, square_name, square_text, string_of};
use vstd::string::StringSliceAdditionalSpecFns;
use super::board::{BitBoard, Square};

verus! {

/// The Chebyshev distance between squares `i` and `j` of the 8x6 board is at
/// most `d`.
pub open spec fn near(i: int, j: int, d: int) -> bool {
    &&& -d <= i % 8 - j % 8 <= d
    &&& -d <= i / 8 - j / 8 <= d
}

/// The Squares of the board within distance one of some Square of `s`.
pub open spec fn zone(s: Set<int>) -> Set<int> {
    Set::new(|i: int| 0 <= i < 48 && exists|j: int| #[trigger] s.contains(j) && near(i, j, 1))
}

/// The Squares of the board at distance exactly `d` from `sq`.
pub open spec fn ring(sq: int, d: int) -> Set<int> {
    Set::new(|i: int| 0 <= i < 48 && near(i, sq, d) && !near(i, sq, d - 1))
}

/// The set grown by one File each way, then by one Rank each way, as the
/// shifts of the board compute it.
pub open spec fn stretch(s: Set<int>) -> Set<int> {
    let bar = s.union(east_set(s, 8, 48)).union(west_set(s, 8, 48));
    bar.union(north_set(bar, 8, 48)).union(south_set(bar, 8))
}

/// A square of the row-grown set is next to a square of `s` on its own Rank.
proof fn lemma_bar_member(s: Set<int>, k: int)
    requires
        s.subset_of(below(48)),
        s.union(east_set(s, 8, 48)).union(west_set(s, 8, 48)).contains(k),
    ensures
        0 <= k < 48,
        exists|j: int| #[trigger] s.contains(j) && j / 8 == k / 8 && -1 <= k % 8 - j % 8 <= 1,
{
    if s.contains(k) {
        assert(s.contains(k) && k / 8 == k / 8);
    } else if east_set(s, 8, 48).contains(k) {
        assert(s.contains(k - 1) && (k - 1) / 8 == k / 8);
    } else {
        assert(west_set(s, 8, 48).contains(k));
        assert(s.contains(k + 1) && (k + 1) / 8 == k / 8);
    }
}

/// Growing a set of the board by the shifts gives the Squares within distance
/// one of it.
pub proof fn lemma_stretch_is_zone(s: Set<int>)
    requires
        s.subset_of(below(48)),
    ensures
        stretch(s) == zone(s),
        zone(s).subset_of(below(48)),
{
    let bar = s.union(east_set(s, 8, 48)).union(west_set(s, 8, 48));
    assert forall|i: int| #[trigger] stretch(s).contains(i) implies zone(s).contains(i) by {
        if bar.contains(i) {
            lemma_bar_member(s, i);
            let j = choose|j: int| #[trigger] s.contains(j) && j / 8 == i / 8 && -1 <= i % 8 - j % 8 <= 1;
            assert(s.contains(j) && near(i, j, 1));
        } else if north_set(bar, 8, 48).contains(i) {
            let k = i - 8;
            lemma_bar_member(s, k);
            let j = choose|j: int| #[trigger] s.contains(j) && j / 8 == k / 8 && -1 <= k % 8 - j % 8 <= 1;
            assert(s.contains(j) && near(i, j, 1));
        } else {
            assert(south_set(bar, 8).contains(i));
            let k = i + 8;
            lemma_bar_member(s, k);
            let j = choose|j: int| #[trigger] s.contains(j) && j / 8 == k / 8 && -1 <= k % 8 - j % 8 <= 1;
            assert(s.contains(j) && near(i, j, 1));
        }
    }
    assert forall|i: int| #[trigger] zone(s).contains(i) implies stretch(s).contains(i) by {
        let j = choose|j: int| #[trigger] s.contains(j) && near(i, j, 1);
        assert(0 <= j < 48);
        let k = j + (i % 8 - j % 8);
        assert(k / 8 == j / 8 && k % 8 == i % 8);
        if i % 8 == j % 8 + 1 {
            assert(east_set(s, 8, 48).contains(k));
        } else if i % 8 == j % 8 - 1 {
            assert(west_set(s, 8, 48).contains(k));
        } else {
            assert(k == j);
        }
        assert(bar.contains(k));
        if i / 8 == j / 8 {
            assert(i == k);
        } else if i / 8 == j / 8 + 1 {
            assert(i == k + 8);
            assert(north_set(bar, 8, 48).contains(i));
        } else {
            assert(i == k - 8);
            assert(south_set(bar, 8).contains(i));
        }
    }
    assert(stretch(s) =~= zone(s));
}

impl BitBoard {
    /// singles returns the targets of all singular moves from all the source
    /// Squares given in the provided BitBoard: the Squares next to them, the
    /// sources themselves left out.
    pub fn singles(bb: BitBoard) -> (r: BitBoard)
        ensures
            bb.on_board() ==> r@ == zone(bb@).difference(bb@) && r.on_board(),
    {
        let bar = bb.union(bb.east()).union(bb.west());
        let r = bar.union(bar.north()).union(bar.south()).symmetric_difference(bb);
        proof {
            if bb.on_board() {
                lemma_stretch_is_zone(bb@);
                assert forall|i: int| #[trigger] bb@.contains(i) implies zone(bb@).contains(i) by {
                    assert(near(i, i, 1));
                }
                assert(r@ =~= zone(bb@).difference(bb@));
            }
        }
        r
    }
}

/// Move represents an Isolation move which can be played on the Board: the
/// Square the pawn moves to in the low six bits, the Square of the tile
/// removed in the next six.
#[derive(Copy, Clone, PartialEq, Eq, Debug, Hash, Structural)]
pub struct Move(u16);

impl Move {
    /// Bit-width of the pawn field.
    pub const PAWN_WIDTH: u16 = 6;
    /// Bit-width of the tile field.
    pub const TILE_WIDTH: u16 = 6;
    /// Bit-mask of the pawn field.
    pub const PAWN_MASK: u16 = 63;
    /// Bit-mask of the tile field.
    pub const TILE_MASK: u16 = 63;
    /// Bit-offset of the pawn field.
    pub const PAWN_OFFSET: u16 = 0;
    /// Bit-offset of the tile field.
    pub const TILE_OFFSET: u16 = 6;
    /// The raw value of the null Move.
    pub const NULL_BITS: u16 = 0x8000;
    /// A suitably high maximum for the number of Moves in a game.
    pub const MAX_IN_GAME: usize = 48;
    /// A suitably high maximum for the number of Moves in a single Position.
    pub const MAX_IN_POSITION: usize = 352;

    /// The raw 16-bit value of the Move.
    pub closed spec fn value(self) -> u16 {
        self.0
    }

    /// The Move of the pawn to `pawn` removing the tile on `tile`.
    pub closed spec fn packed(pawn: int, tile: int) -> Move {
        Move((pawn + 64 * tile) as u16)
    }

    /// The Move with the given raw value.
    pub closed spec fn of_value(raw: u16) -> Move {
        Move(raw)
    }

    /// The value of a Move built from its fields.
    pub proof fn lemma_packed(pawn: int, tile: int)
        requires
            0 <= pawn < 64,
            0 <= tile < 64,
        ensures
            Move::packed(pawn, tile).value() == pawn + 64 * tile,
            Move::packed(pawn, tile).pawn_index() == pawn,
            Move::packed(pawn, tile).tile_index() == tile,
            Move::packed(pawn, tile) != Move::null_move(),
    {
    }

    /// Every value gives a different Move.
    pub proof fn lemma_value(m: Move)
        ensures
            Move::of_value(m.value()) == m,
            Move::null_move().value() == 0x8000,
    {
    }

    /// The index of the Square the pawn moves to.
    pub open spec fn pawn_index(self) -> int {
        (self.value() as int) % 64
    }

    /// The index of the Square of the removed tile.
    pub open spec fn tile_index(self) -> int {
        ((self.value() as int) / 64) % 64
    }

    /// Both Squares of the Move are Squares of the board.
    pub open spec fn on_board(self) -> bool {
        self.pawn_index() < 48 && self.tile_index() < 48
    }

    /// The null Move.
    pub open spec fn null_move() -> Move {
        Move::of_value(0x8000)
    }

    /// NULL Move represents an invalid move.
    pub fn null() -> (r: Move)
        ensures
            r == Move::null_move(),
    {
        Move(Move::NULL_BITS)
    }

    /// Creates a Move from its raw value.
    pub fn from_raw(raw: u16) -> (r: Move)
        ensures
            r == Move::of_value(raw),
            r.value() == raw,
    {
        Move(raw)
    }

    /// Returns the raw value of the Move.
    pub fn raw(self) -> (r: u16)
        ensures
            r == self.value(),
    {
        self.0
    }

    /// new returns a new Move of the pawn to the given pawn Square, removing
    /// the tile on the given tile Square. These Squares can be recovered with
    /// [`Move::pawn`] and [`Move::tile`].
    pub fn new(pawn: Square, tile: Square) -> (r: Move)
        ensures
            r == Move::packed(pawn as int, tile as int),
    {
        let p = pawn as u16;
        let t = tile as u16;
        proof {
            lemma_u16_pack(p, t, 0);
        }
        Move((p << Move::PAWN_OFFSET) | (t << Move::TILE_OFFSET))
    }

    /// Returns the Square the pawn moves to.
    pub fn pawn(self) -> (r: Square)
        requires
            self.pawn_index() < 48,
        ensures
            r as int == self.pawn_index(),
    {
        proof {
            lemma_u16_fields(self.0);
        }
        Square::from_index(((self.0 >> Move::PAWN_OFFSET) & Move::PAWN_MASK) as u8)
    }

    /// Returns the Square of the removed tile.
    pub fn tile(self) -> (r: Square)
        requires
            self.tile_index() < 48,
        ensures
            r as int == self.tile_index(),
    {
        proof {
            lemma_u16_fields(self.0);
        }
        Square::from_index(((self.0 >> Move::TILE_OFFSET) & Move::TILE_MASK) as u8)
    }
}

/// MoveParseError represents an error encountered while reading a Move.
#[derive(Debug, PartialEq, Eq)]
pub enum MoveParseError {
    /// The text of a Move has 4 characters, not the given number.
    BadLength(usize),
    /// A Square of the Move could not be read.
    BadSquare(TypeParseError),
}

/// The Move written by the text: the pawn Square followed by the tile
/// Square.
pub open spec fn move_text(t: Seq<char>) -> Option<Move> {
    if t.len() == 4 {
        match (square_text(t.take(2), 8, 6), square_text(t.skip(2), 8, 6)) {
            (Some(a), Some(b)) => Some(Move::packed(a, b)),
            _ => None,
        }
    } else {
        None
    }
}

/// The text of a Move: `null` for the null Move, else the pawn Square
/// followed by the tile Square.
pub open spec fn move_name(m: Move) -> Seq<char> {
    if m == Move::null_move() {
        seq!['n', 'u', 'l', 'l']
    } else {
        square_name(m.pawn_index(), 8) + square_name(m.tile_index(), 8)
    }
}

impl Move {
    /// Reads a Move from the characters `s[lo..hi]`: `<pawn><tile>`.
    pub fn parse(s: &[char], lo: usize, hi: usize) -> (r: Result<Move, MoveParseError>)
        requires
            lo <= hi <= s@.len(),
        ensures
            ({
                let t = s@.subrange(lo as int, hi as int);
                &&& move_text(t) matches Some(m) ==> r == Ok::<Move, MoveParseError>(m)
                &&& t.len() != 4 ==> r == Err::<Move, MoveParseError>(
                    MoveParseError::BadLength(t.len() as usize),
                )
                &&& t.len() == 4 && move_text(t) is None ==> (r matches Err(
                    MoveParseError::BadSquare(TypeParseError::StrError(n)),
                ) && n@ == "File"@)
            }),
    {
        let ghost t = s@.subrange(lo as int, hi as int);
        let n = hi - lo;
        if n != 4 {
            return Err(MoveParseError::BadLength(n));
        }
        proof {
            assert(t.take(2) =~= s@.subrange(lo as int, lo + 2));
            assert(t.skip(2) =~= s@.subrange(lo + 2, hi as int));
        }
        let pawn = match Square::parse(s, lo, lo + 2) {
            Ok(q) => q,
            Err(e) => {
                return Err(MoveParseError::BadSquare(e));
            },
        };
        match Square::parse(s, lo + 2, hi) {
            Ok(tile) => Ok(Move::new(pawn, tile)),
            Err(e) => Err(MoveParseError::BadSquare(e)),
        }
    }

    /// The text of the Move, which [`Move::parse`] reads back.
    pub fn to_string(self) -> (r: String)
        requires
            self == Move::null_move() || self.on_board(),
        ensures
            r@ == move_name(self),
            vstd::utf8::is_ascii_chars(r@),
    {
        if self.0 == Move::NULL_BITS {
            proof {
                reveal_strlit("null");
                assert("null"@ =~= seq!['n', 'u', 'l', 'l']);
            }
            return "null".to_owned();
        }
        let pawn = square_chars(self.pawn() as u8, 8);
        let tile = square_chars(self.tile() as u8, 8);
        let mut v = pawn;
        v.push(tile[0]);
        v.push(tile[1]);
        proof {
            assert(v@ =~= square_name(self.pawn_index(), 8) + square_name(self.tile_index(), 8));
            law_move_name_text(self.pawn_index(), self.tile_index());
        }
        string_of(v.as_slice())
    }
}

impl core::str::FromStr for Move {
    type Err = MoveParseError;

    /// Reads a Move from its text `<pawn><tile>`, as [`Move::read`] does;
    /// four bytes that are not ASCII are refused for a Square that cannot be
    /// read.
    fn from_str(s: &str) -> (r: Result<Move, MoveParseError>)
        ensures
            s.is_ascii() ==> ({
                let t = s@;
                &&& move_text(t) matches Some(m) ==> r == Ok::<Move, MoveParseError>(m)
                &&& t.len() != 4 ==> r == Err::<Move, MoveParseError>(
                    MoveParseError::BadLength(t.len() as usize),
                )
                &&& t.len() == 4 && move_text(t) is None ==> (r matches Err(
                    MoveParseError::BadSquare(TypeParseError::StrError(n)),
                ) && n@ == "File"@)
            }),
            !s.is_ascii() && s.spec_bytes().len() != 4 ==> r == Err::<Move, MoveParseError>(
                MoveParseError::BadLength(s.spec_bytes().len() as usize),
            ),
            !s.is_ascii() && s.spec_bytes().len() == 4 ==> (r matches Err(
                MoveParseError::BadSquare(TypeParseError::StrError(n)),
            ) && n@ == "File"@),
    {
        if !s.is_ascii() && s.as_bytes().len() == 4 {
            proof {
                reveal_strlit("File");
            }
            return Err(MoveParseError::BadSquare(TypeParseError::StrError("File".to_owned())));
        }
        Move::read(s)
    }
}

impl Move {
    /// Reads a Move from its text, as [`Move::parse`] does. Text that is not
    /// ASCII is refused for its length unless it has 4 bytes; then it must
    /// start with two ASCII characters that name no Square, and is refused
    /// for them.
    pub fn read(s: &str) -> (r: Result<Move, MoveParseError>)
        requires
            s.is_ascii() || s.spec_bytes().len() != 4 || bad_leading_square(s@, 8, 6),
        ensures
            s.is_ascii() ==> ({
                let t = s@;
                &&& move_text(t) matches Some(m) ==> r == Ok::<Move, MoveParseError>(m)
                &&& t.len() != 4 ==> r == Err::<Move, MoveParseError>(
                    MoveParseError::BadLength(t.len() as usize),
                )
                &&& t.len() == 4 && move_text(t) is None ==> (r matches Err(
                    MoveParseError::BadSquare(TypeParseError::StrError(n)),
                ) && n@ == "File"@)
            }),
            !s.is_ascii() && s.spec_bytes().len() != 4 ==> r == Err::<Move, MoveParseError>(
                MoveParseError::BadLength(s.spec_bytes().len() as usize),
            ),
            !s.is_ascii() && s.spec_bytes().len() == 4 ==> (r matches Err(
                MoveParseError::BadSquare(TypeParseError::StrError(n)),
            ) && n@ == "File"@),
    {
        if !s.is_ascii() {
            let bytes = s.as_bytes().len();
            if bytes != 4 {
                return Err(MoveParseError::BadLength(bytes));
            }
            let chars = chars_of(s);
            return match Square::parse(chars.as_slice(), 0, 2) {
                Ok(_) => {
                    proof {
                        assert(false);
                    }
                    Err(MoveParseError::BadLength(bytes))
                },
                Err(e) => Err(MoveParseError::BadSquare(e)),
            };
        }
        let chars = chars_of(s);
        proof {
            assert(chars@.subrange(0, chars@.len() as int) =~= s@);
        }
        Move::parse(chars.as_slice(), 0, chars.len())
    }
}

/// Reading the text of a Move between Squares of the board gives the Move
/// back.
pub proof fn law_move_name_text(pawn: int, tile: int)
    requires
        0 <= pawn < 48,
        0 <= tile < 48,
    ensures
        move_text(move_name(Move::packed(pawn, tile))) == Some(Move::packed(pawn, tile)),
        vstd::utf8::is_ascii_chars(move_name(Move::packed(pawn, tile))),
{
    let m = Move::packed(pawn, tile);
    Move::lemma_packed(pawn, tile);
    law_square_name_text(pawn, 8, 6);
    law_square_name_text(tile, 8, 6);
    let a = square_name(pawn, 8);
    let b = square_name(tile, 8);
    let t = a + b;
    assert(t.take(2) =~= a);
    assert(t.skip(2) =~= b);
    assert(t[0] == ('a' as int + pawn % 8) as char);
    assert(t[1] == ('0' as int + (pawn / 8 + 1)) as char);
    assert(t[2] == ('a' as int + tile % 8) as char);
    assert(t[3] == ('0' as int + (tile / 8 + 1)) as char);
    assert(vstd::utf8::is_ascii_chars(t));
}

impl MoveType for Move {
    const MAX_IN_GAME: usize = 256;
    const MAX_IN_POSITION: usize = 256;

    open spec fn raw_value(&self) -> u16 {
        self.value()
    }

    open spec fn of_raw(raw: u16) -> Move {
        Move::of_value(raw)
    }

    proof fn lemma_raw(m: Move) {
    }

    fn null() -> (r: Move)
        ensures
            r == Move::null_move(),
    {
        Move::null()
    }

    fn from_raw(raw: u16) -> (r: Move) {
        Move::from_raw(raw)
    }

    fn to_raw(self) -> (r: u16) {
        self.raw()
    }
}

} // verus!
