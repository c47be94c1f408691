//! Chess Moves: a source and a target Square and a flag for the special
//! Moves.
use vstd::prelude::*;
use crate::interface::MoveType;
use crate::bits::{lemma_u16_fields, lemma_u16_pack};
use crate::interface::TypeParseError;
use crate::interface::parse::{chars_of, find, first_index, lemma_first_index, string_of};
use super::board::Square;
use super::castling::Side;
use super::piece::Piece;

verus! {

/// The kind of a chess Move.
#[derive(Copy, Clone, PartialEq, Eq, Debug, Hash, Structural)]
pub enum MoveFlag {
    Normal,
    NPromotion,
    BPromotion,
    RPromotion,
    QPromotion,
    EnPassant,
    DoublePush,
    CastleHSide,
    CastleASide,
}

/// The letters of the MoveFlags.
pub open spec fn flag_letters() -> Seq<char> {
    seq!['N', 'n', 'b', 'r', 'q', 'e', 'd', 'h', 'a']
}

impl MoveFlag {
    /// The number of MoveFlags.
    pub const N: usize = 9;

    /// Converts the given index into a MoveFlag.
    pub fn from_index(index: u8) -> (r: MoveFlag)
        requires
            index < 9,
        ensures
            r as u8 == index,
    {
        match index {
            0 => MoveFlag::Normal,
            1 => MoveFlag::NPromotion,
            2 => MoveFlag::BPromotion,
            3 => MoveFlag::RPromotion,
            4 => MoveFlag::QPromotion,
            5 => MoveFlag::EnPassant,
            6 => MoveFlag::DoublePush,
            7 => MoveFlag::CastleHSide,
            _ => MoveFlag::CastleASide,
        }
    }

    /// The flag promotes a pawn.
    pub open spec fn promotes(self) -> bool {
        1 <= self as int <= 4
    }

    /// Returns `true` if the flag promotes a pawn.
    pub fn is_promotion(&self) -> (r: bool)
        ensures
            r == self.promotes(),
    {
        matches!(
            self,
            MoveFlag::NPromotion | MoveFlag::BPromotion | MoveFlag::RPromotion | MoveFlag::QPromotion
        )
    }

    /// Returns `true` if the flag castles.
    pub fn is_castling(&self) -> (r: bool)
        ensures
            r == (*self == MoveFlag::CastleHSide || *self == MoveFlag::CastleASide),
    {
        matches!(self, MoveFlag::CastleHSide | MoveFlag::CastleASide)
    }

    /// The Piece a promotion flag promotes to: the Piece with the flag's
    /// index.
    pub fn promoted_piece(&self) -> (r: Piece)
        requires
            self.promotes(),
        ensures
            r as int == *self as int,
    {
        Piece::from_index(*self as u8)
    }

    /// Reads a MoveFlag from its letter, the characters `s[lo..hi]`.
    pub fn parse(s: &[char], lo: usize, hi: usize) -> (r: Result<MoveFlag, TypeParseError>)
        requires
            lo <= hi <= s@.len(),
        ensures
            ({
                let t = s@.subrange(lo as int, hi as int);
                &&& t.len() == 1 && first_index(flag_letters(), t[0]) >= 0 ==> (r matches Ok(f)
                    && f as int == first_index(flag_letters(), t[0]))
                &&& !(t.len() == 1 && first_index(flag_letters(), t[0]) >= 0) ==> (r matches Err(
                    TypeParseError::StrError(n),
                ) && n@ == "MoveFlag"@)
            }),
    {
        let table = ['N', 'n', 'b', 'r', 'q', 'e', 'd', 'h', 'a'];
        proof {
            assert(table@ =~= flag_letters());
        }
        if hi - lo != 1 {
            return Err(TypeParseError::StrError("MoveFlag".to_owned()));
        }
        proof {
            assert(s@.subrange(lo as int, hi as int)[0] == s@[lo as int]);
            lemma_first_index(table@, s@[lo as int]);
        }
        match find(&table, s[lo]) {
            Some(i) => Ok(MoveFlag::from_index(i)),
            None => Err(TypeParseError::StrError("MoveFlag".to_owned())),
        }
    }

    /// The letter of the MoveFlag.
    pub fn to_string(self) -> (r: String)
        ensures
            r@ == seq![flag_letters()[self as int]],
    {
        let table = ['N', 'n', 'b', 'r', 'q', 'e', 'd', 'h', 'a'];
        proof {
            assert(table@ =~= flag_letters());
        }
        let mut v: Vec<char> = Vec::new();
        v.push(table[self as usize]);
        proof {
            assert(v@ =~= seq![flag_letters()[self as int]]);
        }
        string_of(v.as_slice())
    }
}

impl core::str::FromStr for MoveFlag {
    type Err = TypeParseError;

    fn from_str(s: &str) -> (r: Result<MoveFlag, TypeParseError>)
        ensures
            ({
                let t = s@;
                &&& t.len() == 1 && first_index(flag_letters(), t[0]) >= 0 ==> (r matches Ok(f)
                    && f as int == first_index(flag_letters(), t[0]))
                &&& !(t.len() == 1 && first_index(flag_letters(), t[0]) >= 0) ==> (r matches Err(
                    TypeParseError::StrError(n),
                ) && n@ == "MoveFlag"@)
            }),
    {
        let chars = chars_of(s);
        proof {
            assert(chars@.subrange(0, chars@.len() as int) =~= s@);
        }
        MoveFlag::parse(chars.as_slice(), 0, chars.len())
    }
}

/// Move represents a chess Move: the source Square in the low six bits,
/// the target Square in the next six, and the MoveFlag in the top four.
#[derive(Copy, Clone, PartialEq, Eq, Debug, Hash, Structural)]
pub struct Move(u16);

impl Move {
    /// Bit-width of the source field.
    pub const SOURCE_WIDTH: u16 = 6;
    /// Bit-width of the target field.
    pub const TARGET_WIDTH: u16 = 6;
    /// Bit-width of the flag field.
    pub const MVFLAG_WIDTH: u16 = 4;
    /// Bit-mask of the source field.
    pub const SOURCE_MASK: u16 = 63;
    /// Bit-mask of the target field.
    pub const TARGET_MASK: u16 = 63;
    /// Bit-mask of the flag field.
    pub const MVFLAG_MASK: u16 = 15;
    /// Bit-offset of the source field.
    pub const SOURCE_OFFSET: u16 = 0;
    /// Bit-offset of the target field.
    pub const TARGET_OFFSET: u16 = 6;
    /// Bit-offset of the flag field.
    pub const MVFLAG_OFFSET: u16 = 12;
    /// A suitably high maximum for the number of Moves in a game.
    pub const MAX_IN_GAME: usize = 256;
    /// A suitably high maximum for the number of Moves in a single Position.
    pub const MAX_IN_POSITION: usize = 256;

    /// The raw 16-bit value of the Move.
    pub closed spec fn value(self) -> u16 {
        self.0
    }

    /// The Move with the given raw value.
    pub closed spec fn of_value(raw: u16) -> Move {
        Move(raw)
    }

    /// The Move with the given fields.
    pub open spec fn packed(source: int, target: int, flag: int) -> Move {
        Move::of_value((source + 64 * target + 4096 * flag) as u16)
    }

    /// The index of the source Square.
    pub open spec fn source_index(self) -> int {
        (self.value() as int) % 64
    }

    /// The index of the target Square.
    pub open spec fn target_index(self) -> int {
        ((self.value() as int) / 64) % 64
    }

    /// The index of the MoveFlag.
    pub open spec fn flag_index(self) -> int {
        (self.value() as int) / 4096
    }

    /// The MoveFlag field holds a MoveFlag.
    pub open spec fn well_formed(self) -> bool {
        self.flag_index() < 9
    }

    /// The fields of a Move built from them.
    pub proof fn lemma_packed(source: int, target: int, flag: int)
        requires
            0 <= source < 64,
            0 <= target < 64,
            0 <= flag < 16,
        ensures
            Move::packed(source, target, flag).source_index() == source,
            Move::packed(source, target, flag).target_index() == target,
            Move::packed(source, target, flag).flag_index() == flag,
    {
        assert(Move::of_value((source + 64 * target + 4096 * flag) as u16).value() == source + 64 * target
            + 4096 * flag);
    }

    /// A Move is the one built from its fields.
    pub proof fn lemma_fields(m: Move)
        ensures
            m == Move::packed(m.source_index(), m.target_index(), m.flag_index()),
            0 <= m.source_index() < 64,
            0 <= m.target_index() < 64,
            0 <= m.flag_index() < 16,
    {
        let v = m.value() as int;
        assert(v == v % 64 + 64 * ((v / 64) % 64) + 4096 * (v / 4096)) by (nonlinear_arith)
            requires
                0 <= v < 65536,
        ;
        assert(Move::of_value(m.value()) == m);
    }

    /// NULL Move represents an invalid Move: a Normal Move from a1 to a1.
    pub fn null() -> (r: Move)
        ensures
            r.value() == 0,
            r == Move::packed(0, 0, 0),
    {
        Move(0)
    }

    /// Creates a Move from its raw value.
    pub fn from_raw(raw: u16) -> (r: Move)
        ensures
            r.value() == raw,
    {
        Move(raw)
    }

    /// Returns the raw value of the Move.
    pub fn raw(self) -> (r: u16)
        ensures
            r == self.value(),
    {
        self.0
    }

    /// Creates a Move from its source and target Squares and its MoveFlag.
    pub fn new(source: Square, target: Square, mvflag: MoveFlag) -> (r: Move)
        ensures
            r == Move::packed(source as int, target as int, mvflag as int),
            r.source_index() == source as int,
            r.target_index() == target as int,
            r.flag_index() == mvflag as int,
    {
        let (s, t, f) = (source as u16, target as u16, mvflag as u16);
        proof {
            lemma_u16_pack(s, t, f);
            Move::lemma_packed(s as int, t as int, f as int);
        }
        Move((f << Move::MVFLAG_OFFSET) | (s << Move::SOURCE_OFFSET) | (t << Move::TARGET_OFFSET))
    }

    /// Creates the castling Move of the king on `king` with the rook on
    /// `rook`, to the given Side.
    pub fn new_castling(king: Square, rook: Square, side: Side) -> (r: Move)
        ensures
            r == Move::packed(
                king as int,
                rook as int,
                match side {
                    Side::H => MoveFlag::CastleHSide as int,
                    Side::A => MoveFlag::CastleASide as int,
                },
            ),
    {
        Move::new(
            king,
            rook,
            match side {
                Side::H => MoveFlag::CastleHSide,
                Side::A => MoveFlag::CastleASide,
            },
        )
    }

    /// Creates the Move of a pawn from `source` to `target` promoting to
    /// the given Piece: the flag field holds the index of the Piece.
    pub fn new_with_promotion(source: Square, target: Square, promotion: Piece) -> (r: Move)
        ensures
            r == Move::packed(source as int, target as int, promotion as int),
    {
        let (s, t, f) = (source as u16, target as u16, promotion as u16);
        proof {
            lemma_u16_pack(s, t, f);
        }
        Move((f << Move::MVFLAG_OFFSET) | (s << Move::SOURCE_OFFSET) | (t << Move::TARGET_OFFSET))
    }

    /// Returns the source Square of the Move.
    pub fn source(self) -> (r: Square)
        ensures
            r as int == self.source_index(),
    {
        proof {
            lemma_u16_fields(self.0);
        }
        Square::from_index(((self.0 >> Move::SOURCE_OFFSET) & Move::SOURCE_MASK) as u8)
    }

    /// Returns the target Square of the Move.
    pub fn target(self) -> (r: Square)
        ensures
            r as int == self.target_index(),
    {
        proof {
            lemma_u16_fields(self.0);
        }
        Square::from_index(((self.0 >> Move::TARGET_OFFSET) & Move::TARGET_MASK) as u8)
    }

    /// Returns the MoveFlag of the Move.
    pub fn flag(self) -> (r: MoveFlag)
        requires
            self.well_formed(),
        ensures
            r as int == self.flag_index(),
    {
        proof {
            lemma_u16_fields(self.0);
        }
        MoveFlag::from_index(((self.0 >> Move::MVFLAG_OFFSET) & Move::MVFLAG_MASK) as u8)
    }
}

/// MoveParseError represents an error encountered while reading a Move.
#[derive(Debug, PartialEq, Eq)]
pub enum MoveParseError {
    /// The text of a Move has 4 or 5 characters, not the given number.
    BadLength(usize),
    /// A Square or the flag of the Move could not be read.
    BadSquare(TypeParseError),
    /// No piece stands on the source Square.
    EmptySource,
}

impl MoveType for Move {
    const MAX_IN_GAME: usize = 256;
    const MAX_IN_POSITION: usize = 256;

    open spec fn raw_value(&self) -> u16 {
        self.value()
    }

    open spec fn of_raw(raw: u16) -> Move {
        Move::of_value(raw)
    }

    proof fn lemma_raw(m: Move) {
    }

    fn null() -> (r: Move)
        ensures
            r == Move::packed(0, 0, 0),
    {
        Move::null()
    }

    fn from_raw(raw: u16) -> (r: Move) {
        Move::from_raw(raw)
    }

    fn to_raw(self) -> (r: u16) {
        self.raw()
    }
}

} // verus!
