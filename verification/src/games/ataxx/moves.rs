//! Ataxx Moves and the Squares that a Move can reach.
use vstd::prelude::*;
use crate::interface::MoveType;
use crate::bits::{below, lemma_u16_fields, lemma_u16_pack};
use crate::interface::bitboard::{east_set, north_set, south_set, west_set};
use super::board::{BitBoard, Square};
use super::position::Position;
use crate::interface::TypeParseError;
use vstd::string::StringSliceAdditionalSpecFns;
use crate::interface::parse::{bad_leading_square, chars_of, field_is, law_square_name_text, square_chars, square_name, square_text, string_of};

verus! {

/// The Chebyshev distance between squares `i` and `j` of the 7x7 board is at
/// most `d`.
pub open spec fn near(i: int, j: int, d: int) -> bool {
    &&& -d <= i % 7 - j % 7 <= d
    &&& -d <= i / 7 - j / 7 <= d
}

/// The Squares of the board within distance one of some Square of `s`.
pub open spec fn zone(s: Set<int>) -> Set<int> {
    Set::new(|i: int| 0 <= i < 49 && exists|j: int| #[trigger] s.contains(j) && near(i, j, 1))
}

/// The Squares of the board at distance exactly `d` from `sq`.
pub open spec fn ring(sq: int, d: int) -> Set<int> {
    Set::new(|i: int| 0 <= i < 49 && near(i, sq, d) && !near(i, sq, d - 1))
}

/// The set grown by one File each way, then by one Rank each way, as the
/// shifts of the board compute it.
pub open spec fn stretch(s: Set<int>) -> Set<int> {
    let bar = s.union(east_set(s, 7, 49)).union(west_set(s, 7, 49));
    bar.union(north_set(bar, 7, 49)).union(south_set(bar, 7))
}

/// A square of the row-grown set is next to a square of `s` on its own Rank.
proof fn lemma_bar_member(s: Set<int>, k: int)
    requires
        s.subset_of(below(49)),
        s.union(east_set(s, 7, 49)).union(west_set(s, 7, 49)).contains(k),
    ensures
        0 <= k < 49,
        exists|j: int| #[trigger] s.contains(j) && j / 7 == k / 7 && -1 <= k % 7 - j % 7 <= 1,
{
    if s.contains(k) {
        assert(s.contains(k) && k / 7 == k / 7);
    } else if east_set(s, 7, 49).contains(k) {
        assert(s.contains(k - 1) && (k - 1) / 7 == k / 7);
    } else {
        assert(west_set(s, 7, 49).contains(k));
        assert(s.contains(k + 1) && (k + 1) / 7 == k / 7);
    }
}

/// Growing a set of the board by the shifts gives the Squares within distance
/// one of it.
pub proof fn lemma_stretch_is_zone(s: Set<int>)
    requires
        s.subset_of(below(49)),
    ensures
        stretch(s) == zone(s),
        zone(s).subset_of(below(49)),
{
    let bar = s.union(east_set(s, 7, 49)).union(west_set(s, 7, 49));
    assert forall|i: int| #[trigger] stretch(s).contains(i) implies zone(s).contains(i) by {
        if bar.contains(i) {
            lemma_bar_member(s, i);
            let j = choose|j: int| #[trigger] s.contains(j) && j / 7 == i / 7 && -1 <= i % 7 - j % 7 <= 1;
            assert(s.contains(j) && near(i, j, 1));
        } else if north_set(bar, 7, 49).contains(i) {
            let k = i - 7;
            lemma_bar_member(s, k);
            let j = choose|j: int| #[trigger] s.contains(j) && j / 7 == k / 7 && -1 <= k % 7 - j % 7 <= 1;
            assert(s.contains(j) && near(i, j, 1));
        } else {
            assert(south_set(bar, 7).contains(i));
            let k = i + 7;
            lemma_bar_member(s, k);
            let j = choose|j: int| #[trigger] s.contains(j) && j / 7 == k / 7 && -1 <= k % 7 - j % 7 <= 1;
            assert(s.contains(j) && near(i, j, 1));
        }
    }
    assert forall|i: int| #[trigger] zone(s).contains(i) implies stretch(s).contains(i) by {
        let j = choose|j: int| #[trigger] s.contains(j) && near(i, j, 1);
        assert(0 <= j < 49);
        let k = j + (i % 7 - j % 7);
        assert(k / 7 == j / 7 && k % 7 == i % 7);
        if i % 7 == j % 7 + 1 {
            assert(east_set(s, 7, 49).contains(k));
        } else if i % 7 == j % 7 - 1 {
            assert(west_set(s, 7, 49).contains(k));
        } else {
            assert(k == j);
        }
        assert(bar.contains(k));
        if i / 7 == j / 7 {
            assert(i == k);
        } else if i / 7 == j / 7 + 1 {
            assert(i == k + 7);
            assert(north_set(bar, 7, 49).contains(i));
        } else {
            assert(i == k - 7);
            assert(south_set(bar, 7).contains(i));
        }
    }
    assert(stretch(s) =~= zone(s));
}

/// The zone of one Square.
pub proof fn lemma_zone_single(sq: int)
    requires
        0 <= sq < 49,
    ensures
        zone(set![sq]) == Set::new(|i: int| 0 <= i < 49 && near(i, sq, 1)),
{
    assert forall|i: int| #[trigger] zone(set![sq]).contains(i) == (0 <= i < 49 && near(i, sq, 1)) by {
        if 0 <= i < 49 && near(i, sq, 1) {
            assert(set![sq].contains(sq) && near(i, sq, 1));
        }
    }
    assert(zone(set![sq]) =~= Set::new(|i: int| 0 <= i < 49 && near(i, sq, 1)));
}

/// The zone of the Squares around one Square.
pub proof fn lemma_zone_twice(sq: int)
    requires
        0 <= sq < 49,
    ensures
        zone(Set::new(|i: int| 0 <= i < 49 && near(i, sq, 1))) == Set::new(
            |i: int| 0 <= i < 49 && near(i, sq, 2),
        ),
{
    let one = Set::new(|i: int| 0 <= i < 49 && near(i, sq, 1));
    let two = Set::new(|i: int| 0 <= i < 49 && near(i, sq, 2));
    assert forall|i: int| #[trigger] zone(one).contains(i) == two.contains(i) by {
        if two.contains(i) {
            let df = if i % 7 > sq % 7 {
                1int
            } else if i % 7 < sq % 7 {
                -1int
            } else {
                0int
            };
            let dr = if i / 7 > sq / 7 {
                1int
            } else if i / 7 < sq / 7 {
                -1int
            } else {
                0int
            };
            let j = sq + df + 7 * dr;
            assert(j % 7 == sq % 7 + df && j / 7 == sq / 7 + dr);
            assert(one.contains(j) && near(i, j, 1));
        }
        if zone(one).contains(i) {
            let j = choose|j: int| #[trigger] one.contains(j) && near(i, j, 1);
            assert(near(i, sq, 2));
        }
    }
    assert(zone(one) =~= two);
}

impl BitBoard {
    /// singles returns the targets of all singular moves from all the source
    /// Squares given in the provided BitBoard, the source Squares included.
    pub fn singles(bb: BitBoard) -> (r: BitBoard)
        ensures
            r@ == stretch(bb@),
            bb.on_board() ==> r@ == zone(bb@) && r.on_board(),
    {
        let bar = bb.union(bb.east()).union(bb.west());
        let r = bar.union(bar.north()).union(bar.south());
        proof {
            if bb.on_board() {
                lemma_stretch_is_zone(bb@);
            }
        }
        r
    }

    /// single returns the targets of a singular Move from the given Square.
    pub fn single(square: Square) -> (r: BitBoard)
        ensures
            r@ == ring(square as int, 1),
            r.on_board(),
    {
        let square_bb = BitBoard::from_square(square);
        let r = BitBoard::singles(square_bb).symmetric_difference(square_bb);
        proof {
            lemma_zone_single(square as int);
            assert(r@ =~= ring(square as int, 1));
        }
        r
    }

    /// double returns the targets of a jump Move from the given Square.
    pub fn double(square: Square) -> (r: BitBoard)
        ensures
            r@ == ring(square as int, 2),
            r.on_board(),
    {
        let singles = BitBoard::singles(BitBoard::from_square(square));
        let r = BitBoard::singles(singles).symmetric_difference(singles);
        proof {
            lemma_zone_single(square as int);
            lemma_zone_twice(square as int);
            assert(r@ =~= ring(square as int, 2));
        }
        r
    }
}

/// singles returns the targets of all singular moves from all the source
/// Squares given in the provided BitBoard, the source Squares included.
pub fn singles(bb: BitBoard) -> (r: BitBoard)
    ensures
        r@ == stretch(bb@),
        bb.on_board() ==> r@ == zone(bb@) && r.on_board(),
{
    BitBoard::singles(bb)
}

/// single returns the targets of a singular Move from the given Square.
pub fn single(square: Square) -> (r: BitBoard)
    ensures
        r@ == ring(square as int, 1),
        r.on_board(),
{
    BitBoard::single(square)
}

/// double returns the targets of a jump Move from the given Square.
pub fn double(square: Square) -> (r: BitBoard)
    ensures
        r@ == ring(square as int, 2),
        r.on_board(),
{
    BitBoard::double(square)
}

/// Move represents an Ataxx move which can be played on the Board: a Square
/// of origin in the low six bits, a target Square in the next six.
#[derive(Copy, Clone, PartialEq, Eq, Debug, Hash, Structural)]
pub struct Move(u16);

impl Move {
    /// Bit-width of the source field.
    pub const SOURCE_WIDTH: u16 = 6;
    /// Bit-width of the target field.
    pub const TARGET_WIDTH: u16 = 6;
    /// Bit-mask of the source field.
    pub const SOURCE_MASK: u16 = 63;
    /// Bit-mask of the target field.
    pub const TARGET_MASK: u16 = 63;
    /// Bit-offset of the source field.
    pub const SOURCE_OFFSET: u16 = 0;
    /// Bit-offset of the target field.
    pub const TARGET_OFFSET: u16 = 6;
    /// The raw value of the null Move.
    pub const NULL_BITS: u16 = 0x8000;
    /// The raw value of the pass Move.
    pub const PASS_BITS: u16 = 0xc000;
    /// A suitably high maximum for the number of Moves in a game.
    pub const MAX_IN_GAME: usize = 256;
    /// A suitably high maximum for the number of Moves in a single Position.
    pub const MAX_IN_POSITION: usize = 256;

    /// The raw 16-bit value of the Move.
    pub closed spec fn value(self) -> u16 {
        self.0
    }

    /// The Move from `source` to `target`.
    pub closed spec fn packed(source: int, target: int) -> Move {
        Move((source + 64 * target) as u16)
    }

    /// The Move with the given raw value.
    pub closed spec fn of_value(raw: u16) -> Move {
        Move(raw)
    }

    /// The value of a Move built from its fields, and the Move of a value.
    pub proof fn lemma_packed(source: int, target: int)
        requires
            0 <= source < 64,
            0 <= target < 64,
        ensures
            Move::packed(source, target).value() == source + 64 * target,
            Move::packed(source, target).source_index() == source,
            Move::packed(source, target).target_index() == target,
            Move::packed(source, target) != Move::pass_move(),
    {
    }

    /// The index of the source Square.
    pub open spec fn source_index(self) -> int {
        (self.value() as int) % 64
    }

    /// The index of the target Square.
    pub open spec fn target_index(self) -> int {
        ((self.value() as int) / 64) % 64
    }

    /// Both Squares of the Move are Squares of the board.
    pub open spec fn on_board(self) -> bool {
        self.source_index() < 49 && self.target_index() < 49
    }

    /// The pass Move.
    pub open spec fn pass_move() -> Move {
        Move::of_value(0xc000)
    }

    /// The null Move.
    pub open spec fn null_move() -> Move {
        Move::of_value(0x8000)
    }

    /// Every value gives a different Move.
    pub proof fn lemma_value(m: Move)
        ensures
            Move::of_value(m.value()) == m,
            Move::pass_move().value() == 0xc000,
            Move::null_move().value() == 0x8000,
            Move::pass_move().on_board(),
            Move::null_move().on_board(),
    {
    }

    /// NULL Move represents an invalid move.
    pub fn null() -> (r: Move)
        ensures
            r == Move::null_move(),
    {
        Move(Move::NULL_BITS)
    }

    /// PASS Move represents a no move, where only the side to move changes.
    pub fn pass() -> (r: Move)
        ensures
            r == Move::pass_move(),
    {
        Move(Move::PASS_BITS)
    }

    /// Creates a Move from its raw value.
    pub fn from_raw(raw: u16) -> (r: Move)
        ensures
            r == Move::of_value(raw),
            r.value() == raw,
    {
        Move(raw)
    }

    /// Returns the raw value of the Move.
    pub fn raw(self) -> (r: u16)
        ensures
            r == self.value(),
    {
        self.0
    }

    /// new_single returns a new singular Move, where a piece is cloned to its
    /// target Square. For a singular Move, [`Move::source`] and
    /// [`Move::target`] are equal.
    pub fn new_single(square: Square) -> (r: Move)
        ensures
            r == Move::packed(square as int, square as int),
    {
        Move::new(square, square)
    }

    /// new returns a new jump Move from the given source Square to the given
    /// target Square.
    pub fn new(source: Square, target: Square) -> (r: Move)
        ensures
            r == Move::packed(source as int, target as int),
    {
        let s = source as u16;
        let t = target as u16;
        proof {
            lemma_u16_pack(s, t, 0);
        }
        Move((s << Move::SOURCE_OFFSET) | (t << Move::TARGET_OFFSET))
    }

    /// Source returns the source Square of the moving piece. This is equal to
    /// the target Square if the given Move is of singular type.
    pub fn source(self) -> (r: Square)
        requires
            self.source_index() < 49,
        ensures
            r as int == self.source_index(),
    {
        proof {
            lemma_u16_fields(self.0);
        }
        Square::from_index(((self.0 >> Move::SOURCE_OFFSET) & Move::SOURCE_MASK) as u8)
    }

    /// Target returns the target Square of the moving piece.
    pub fn target(self) -> (r: Square)
        requires
            self.target_index() < 49,
        ensures
            r as int == self.target_index(),
    {
        proof {
            lemma_u16_fields(self.0);
        }
        Square::from_index(((self.0 >> Move::TARGET_OFFSET) & Move::TARGET_MASK) as u8)
    }

    /// is_single checks if the given Move is singular in nature.
    pub fn is_single(self) -> (r: bool)
        requires
            self.on_board(),
        ensures
            r == (self.source_index() == self.target_index()),
    {
        self.source() == self.target()
    }
}

/// MoveParseError represents an error encountered while reading a Move.
#[derive(Debug, PartialEq, Eq)]
pub enum MoveParseError {
    /// The text of a Move has 2 or 4 characters, not the given number.
    BadLength(usize),
    /// A Square of the Move could not be read.
    BadSquare(TypeParseError),
}

/// The text of the pass Move.
pub open spec fn pass_text() -> Seq<char> {
    seq!['0', '0', '0', '0']
}

/// The Move written by the text: `0000` for the pass Move, the target
/// Square for a singular Move, the source and target Squares for a jump.
pub open spec fn move_text(t: Seq<char>) -> Option<Move> {
    if t == pass_text() {
        Some(Move::pass_move())
    } else if t.len() == 2 {
        match square_text(t, 7, 7) {
            Some(q) => Some(Move::packed(q, q)),
            None => None,
        }
    } else if t.len() == 4 {
        match (square_text(t.take(2), 7, 7), square_text(t.skip(2), 7, 7)) {
            (Some(a), Some(b)) => Some(Move::packed(a, b)),
            _ => None,
        }
    } else {
        None
    }
}

/// The text of a Move: `null` for the null Move, `0000` for the pass
/// Move, the target Square of a singular Move, the source and target
/// Squares of a jump.
pub open spec fn move_name(m: Move) -> Seq<char> {
    if m == Move::null_move() {
        seq!['n', 'u', 'l', 'l']
    } else if m == Move::pass_move() {
        pass_text()
    } else if m.source_index() == m.target_index() {
        square_name(m.source_index(), 7)
    } else {
        square_name(m.source_index(), 7) + square_name(m.target_index(), 7)
    }
}

impl Move {
    /// Reads a Move from the characters `s[lo..hi]`: `0000` for the pass
    /// Move, `<target>` for a singular Move and `<source><target>` for a
    /// jump Move.
    pub fn parse(s: &[char], lo: usize, hi: usize) -> (r: Result<Move, MoveParseError>)
        requires
            lo <= hi <= s@.len(),
        ensures
            ({
                let t = s@.subrange(lo as int, hi as int);
                &&& move_text(t) matches Some(m) ==> r == Ok::<Move, MoveParseError>(m)
                &&& t != pass_text() && t.len() != 2 && t.len() != 4 ==> r == Err::<Move, MoveParseError>(
                    MoveParseError::BadLength(t.len() as usize),
                )
                &&& (t.len() == 2 || t.len() == 4) && move_text(t) is None ==> (r matches Err(
                    MoveParseError::BadSquare(TypeParseError::StrError(n)),
                ) && n@ == "File"@)
            }),
    {
        let ghost t = s@.subrange(lo as int, hi as int);
        let pass = field_is(s, lo, hi, "0000");
        proof {
            reveal_strlit("0000");
            assert("0000"@ =~= pass_text());
        }
        if pass {
            return Ok(Move::pass());
        }
        let n = hi - lo;
        if n != 2 && n != 4 {
            return Err(MoveParseError::BadLength(n));
        }
        let source = match Square::parse(s, lo, lo + 2) {
            Ok(q) => q,
            Err(e) => {
                proof {
                    if n == 4 {
                        assert(t.take(2) =~= s@.subrange(lo as int, lo + 2));
                    } else {
                        assert(t =~= s@.subrange(lo as int, lo + 2));
                    }
                }
                return Err(MoveParseError::BadSquare(e));
            },
        };
        if n < 4 {
            proof {
                assert(t =~= s@.subrange(lo as int, lo + 2));
            }
            return Ok(Move::new_single(source));
        }
        proof {
            assert(t.take(2) =~= s@.subrange(lo as int, lo + 2));
            assert(t.skip(2) =~= s@.subrange(lo + 2, hi as int));
        }
        match Square::parse(s, lo + 2, hi) {
            Ok(target) => Ok(Move::new(source, target)),
            Err(e) => Err(MoveParseError::BadSquare(e)),
        }
    }

    /// Reads a Move from its text, as [`Move::parse`] does. The Position is
    /// not consulted. Text that is not ASCII is refused for its length unless
    /// it has 2 or 4 bytes; then it must start with two ASCII characters that
    /// name no Square, and is refused for them.
    pub fn from_str(move_str: &str, position: &Position) -> (r: Result<Move, MoveParseError>)
        requires
            move_str.is_ascii() || (move_str.spec_bytes().len() != 2 && move_str.spec_bytes().len()
                != 4) || bad_leading_square(move_str@, 7, 7),
        ensures
            move_str.is_ascii() ==> ({
                let t = move_str@;
                &&& move_text(t) matches Some(m) ==> r == Ok::<Move, MoveParseError>(m)
                &&& t != pass_text() && t.len() != 2 && t.len() != 4 ==> r == Err::<
                    Move,
                    MoveParseError,
                >(MoveParseError::BadLength(t.len() as usize))
                &&& (t.len() == 2 || t.len() == 4) && move_text(t) is None ==> (r matches Err(
                    MoveParseError::BadSquare(TypeParseError::StrError(n)),
                ) && n@ == "File"@)
            }),
            !move_str.is_ascii() && move_str.spec_bytes().len() != 2 && move_str.spec_bytes().len()
                != 4 ==> r == Err::<Move, MoveParseError>(
                MoveParseError::BadLength(move_str.spec_bytes().len() as usize),
            ),
            !move_str.is_ascii() && (move_str.spec_bytes().len() == 2 || move_str.spec_bytes().len()
                == 4) ==> (r matches Err(MoveParseError::BadSquare(TypeParseError::StrError(n)))
                && n@ == "File"@),
    {
        if !move_str.is_ascii() {
            let bytes = move_str.as_bytes().len();
            if bytes != 2 && bytes != 4 {
                return Err(MoveParseError::BadLength(bytes));
            }
            let chars = chars_of(move_str);
            return match Square::parse(chars.as_slice(), 0, 2) {
                Ok(_) => {
                    proof {
                        assert(false);
                    }
                    Err(MoveParseError::BadLength(bytes))
                },
                Err(e) => Err(MoveParseError::BadSquare(e)),
            };
        }
        let chars = chars_of(move_str);
        proof {
            assert(chars@.subrange(0, chars@.len() as int) =~= move_str@);
        }
        Move::parse(chars.as_slice(), 0, chars.len())
    }

    /// The text of the Move, which [`Move::parse`] reads back.
    pub fn to_string(self) -> (r: String)
        requires
            self == Move::null_move() || self == Move::pass_move() || self.on_board(),
        ensures
            r@ == move_name(self),
    {
        if self.0 == Move::NULL_BITS {
            proof {
                reveal_strlit("null");
                assert("null"@ =~= seq!['n', 'u', 'l', 'l']);
            }
            return "null".to_owned();
        }
        if self.0 == Move::PASS_BITS {
            proof {
                reveal_strlit("0000");
                assert("0000"@ =~= pass_text());
            }
            return "0000".to_owned();
        }
        proof {
            assert(self != Move::null_move() && self != Move::pass_move());
        }
        let source = square_chars(self.source() as u8, 7);
        if self.is_single() {
            return string_of(source.as_slice());
        }
        let target = square_chars(self.target() as u8, 7);
        let mut v = source;
        v.push(target[0]);
        v.push(target[1]);
        proof {
            assert(v@ =~= square_name(self.source_index(), 7) + square_name(self.target_index(), 7));
        }
        string_of(v.as_slice())
    }
}

/// Reading the text of a Move gives the Move back: the pass Move, and every
/// Move between Squares of the board.
pub proof fn law_move_name_text(source: int, target: int)
    requires
        0 <= source < 49,
        0 <= target < 49,
    ensures
        move_text(move_name(Move::packed(source, target))) == Some(Move::packed(source, target)),
        move_text(move_name(Move::pass_move())) == Some(Move::pass_move()),
{
    let m = Move::packed(source, target);
    Move::lemma_packed(source, target);
    Move::lemma_value(m);
    assert(m != Move::null_move());
    law_square_name_text(source, 7, 7);
    law_square_name_text(target, 7, 7);
    let a = square_name(source, 7);
    let b = square_name(target, 7);
    assert(a != pass_text()) by {
        assert(a.len() == 2);
    }
    if source != target {
        let t = a + b;
        assert(t.len() == 4);
        assert(t != pass_text()) by {
            assert(t[0] == a[0]);
            assert(pass_text()[0] == '0');
        }
        assert(t.take(2) =~= a);
        assert(t.skip(2) =~= b);
    }
}

impl MoveType for Move {
    const MAX_IN_GAME: usize = 256;
    const MAX_IN_POSITION: usize = 256;

    open spec fn raw_value(&self) -> u16 {
        self.value()
    }

    open spec fn of_raw(raw: u16) -> Move {
        Move::of_value(raw)
    }

    proof fn lemma_raw(m: Move) {
    }

    fn null() -> (r: Move)
        ensures
            r == Move::null_move(),
    {
        Move::null()
    }

    fn from_raw(raw: u16) -> (r: Move) {
        Move::from_raw(raw)
    }

    fn to_raw(self) -> (r: u16) {
        self.raw()
    }
}

} // verus!
