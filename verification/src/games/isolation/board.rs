//! The Isolation board: Files, Ranks, Squares and BitBoards.
use vstd::prelude::*;
use crate::bits::{bit, bits, below, lemma_bit_ops, lemma_bit_shifts, lemma_bits_ops, lemma_bits_finite};
use crate::interface::bitboard::{
    bit_seq, count, east_set, file_set, geometry, has, none, north_set, pop_lowest, rank_set,
    shift_east, shift_north, shift_south, shift_west, singleton, south_set, west_set,
};
use crate::interface::{BitBoardType, RepresentableType, SetType, SquareType, TypeParseError};
use crate::interface::art::{push_rank_lines, rank_lines};
use crate::interface::parse::{
    chars_of, file_letter, file_text, parse_file, parse_rank_number, parse_square, rank_name,
    rank_text, square_chars, square_name, square_text, string_of,
};

verus! {

/// Number of Files of the board.
pub const FILES: u64 = 8;
/// Number of Ranks of the board.
pub const RANKS: u64 = 6;
/// Number of Squares of the board.
pub const SQUARES: u64 = 48;
/// The bits of the Squares of the board.
pub const UNIVERSE_BITS: u64 = 0xffffffffffff;
/// The bits of the Squares of the first File.
pub const FIRST_FILE_BITS: u64 = 0x10101010101;
/// The bits of the Squares of the first Rank.
pub const FIRST_RANK_BITS: u64 = 0xff;

/// The shape facts of this board.
pub proof fn lemma_geometry()
    ensures
        geometry(FILES, SQUARES, UNIVERSE_BITS, FIRST_FILE_BITS),
        forall|i: int| #[trigger] bit(FIRST_RANK_BITS, i) == (0 <= i < 8),
{
    assert(forall|i: u64|
        #![trigger 0xffffffffffffu64 >> i]
        i < 64 ==> (((0xffffffffffffu64 >> i) & 1u64) == 1u64) == (i < 48u64)) by (bit_vector);
    assert(forall|i: u64|
        #![trigger 0x10101010101u64 >> i]
        i < 64 ==> (((0x10101010101u64 >> i) & 1u64) == 1u64) == (i < 48u64 && i % 8u64 == 0u64)
            && ((((0xffffffffffffu64 ^ 0x10101010101u64) >> i) & 1u64) == 1u64) == (i < 48u64 && i % 8u64 != 0u64)
            && ((((0xffffffffffffu64 ^ (0x10101010101u64 << 7u64)) >> i) & 1u64) == 1u64) == (i < 48u64 && i
            % 8u64 != 7u64) && (((0xffu64 >> i) & 1u64) == 1u64) == (i < 8u64))
        by (bit_vector);
    assert forall|i: int| #[trigger] bits(UNIVERSE_BITS).contains(i) == below(48).contains(i) by {
        if 0 <= i < 64 {
            let j = i as u64;
            assert((((0xffffffffffffu64 >> j) & 1u64) == 1u64) == (j < 48u64));
        }
    }
    assert(bits(UNIVERSE_BITS) =~= below(48));
    assert forall|i: int| #[trigger] bit(FIRST_FILE_BITS, i) == (0 <= i < 48 && i % 8 == 0) by {
        if 0 <= i < 64 {
            let j = i as u64;
            assert((((0x10101010101u64 >> j) & 1u64) == 1u64) == (j < 48u64 && j % 8u64 == 0u64));
        }
    }
    assert forall|i: int| #[trigger] bit(UNIVERSE_BITS ^ FIRST_FILE_BITS, i) == (0 <= i < 48 && i % 8 != 0) by {
        if 0 <= i < 64 {
            let j = i as u64;
            assert((((0x10101010101u64 >> j) & 1u64) == 1u64) == (j < 48u64 && j % 8u64 == 0u64));
            assert(((((0xffffffffffffu64 ^ 0x10101010101u64) >> j) & 1u64) == 1u64) == (j < 48u64 && j % 8u64 != 0u64));
        }
    }
    assert forall|i: int| #[trigger] bit(UNIVERSE_BITS ^ (FIRST_FILE_BITS << 7u64), i) == (0 <= i < 48 && i % 8 != 7) by {
        if 0 <= i < 64 {
            let j = i as u64;
            assert((((0x10101010101u64 >> j) & 1u64) == 1u64) == (j < 48u64 && j % 8u64 == 0u64));
            assert(((((0xffffffffffffu64 ^ (0x10101010101u64 << 7u64)) >> j) & 1u64) == 1u64) == (j < 48u64 && j % 8u64 != 7u64));
        }
    }
    assert forall|i: int| #[trigger] bit(FIRST_RANK_BITS, i) == (0 <= i < 8) by {
        if 0 <= i < 64 {
            let j = i as u64;
            assert((((0x10101010101u64 >> j) & 1u64) == 1u64) == (j < 48u64 && j % 8u64 == 0u64));
            assert((((0xffu64 >> j) & 1u64) == 1u64) == (j < 8u64));
        }
    }
}

/// A File (column) of the board.
#[derive(Copy, Clone, PartialEq, Eq, Debug, Hash, Structural)]
pub enum File {
    A, B, C, D, E, F, G, H,
}

/// A Rank (row) of the board.
#[derive(Copy, Clone, PartialEq, Eq, Debug, Hash, Structural)]
pub enum Rank {
    First, Second, Third, Fourth, Fifth, Sixth,
}

/// A Square of the board; its index is `rank * 8 + file`.
#[derive(Copy, Clone, PartialEq, Eq, Debug, Hash, Structural)]
pub enum Square {
    A1, B1, C1, D1, E1, F1, G1, H1,
    A2, B2, C2, D2, E2, F2, G2, H2,
    A3, B3, C3, D3, E3, F3, G3, H3,
    A4, B4, C4, D4, E4, F4, G4, H4,
    A5, B5, C5, D5, E5, F5, G5, H5,
    A6, B6, C6, D6, E6, F6, G6, H6,
}

impl File {
    /// The number of Files.
    pub const N: usize = 8;

    /// Converts the given index into a File.
    pub fn from_index(index: u8) -> (r: File)
        requires
            index < 8,
        ensures
            r as u8 == index,
    {
        match index {
            0 => File::A,
            1 => File::B,
            2 => File::C,
            3 => File::D,
            4 => File::E,
            5 => File::F,
            6 => File::G,
            _ => File::H,
        }
    }

    /// Converts the given number into a File, failing when no File has
    /// that index.
    pub fn try_from_index(index: u8) -> (r: Result<File, TypeParseError>)
        ensures
            index < 8 ==> (r matches Ok(v) && v as u8 == index),
            index >= 8 ==> r matches Err(TypeParseError::RangeError(_)),
    {
        if index < 8 {
            Ok(File::from_index(index))
        } else {
            Err(TypeParseError::RangeError("File".to_owned()))
        }
    }
}

impl RepresentableType for File {
    const N: usize = 8;

    open spec fn count() -> nat {
        8
    }

    proof fn lemma_count() {
    }

    open spec fn index(self) -> nat {
        self as nat
    }

    fn from_number(number: u8) -> (r: File) {
        File::from_index(number)
    }

    fn try_from_number(number: u8) -> (r: Result<File, TypeParseError>) {
        File::try_from_index(number)
    }

    fn number(self) -> (r: u8) {
        self as u8
    }
}

impl Rank {
    /// The number of Ranks.
    pub const N: usize = 6;

    /// Converts the given index into a Rank.
    pub fn from_index(index: u8) -> (r: Rank)
        requires
            index < 6,
        ensures
            r as u8 == index,
    {
        match index {
            0 => Rank::First,
            1 => Rank::Second,
            2 => Rank::Third,
            3 => Rank::Fourth,
            4 => Rank::Fifth,
            _ => Rank::Sixth,
        }
    }

    /// Converts the given number into a Rank, failing when no Rank has
    /// that index.
    pub fn try_from_index(index: u8) -> (r: Result<Rank, TypeParseError>)
        ensures
            index < 6 ==> (r matches Ok(v) && v as u8 == index),
            index >= 6 ==> r matches Err(TypeParseError::RangeError(_)),
    {
        if index < 6 {
            Ok(Rank::from_index(index))
        } else {
            Err(TypeParseError::RangeError("Rank".to_owned()))
        }
    }
}

impl RepresentableType for Rank {
    const N: usize = 6;

    open spec fn count() -> nat {
        6
    }

    proof fn lemma_count() {
    }

    open spec fn index(self) -> nat {
        self as nat
    }

    fn from_number(number: u8) -> (r: Rank) {
        Rank::from_index(number)
    }

    fn try_from_number(number: u8) -> (r: Result<Rank, TypeParseError>) {
        Rank::try_from_index(number)
    }

    fn number(self) -> (r: u8) {
        self as u8
    }
}

impl Square {
    /// The number of Squares.
    pub const N: usize = 48;

    /// Converts the given index into a Square.
    pub fn from_index(index: u8) -> (r: Square)
        requires
            index < 48,
        ensures
            r as u8 == index,
    {
        match index {
            0 => Square::A1,
            1 => Square::B1,
            2 => Square::C1,
            3 => Square::D1,
            4 => Square::E1,
            5 => Square::F1,
            6 => Square::G1,
            7 => Square::H1,
            8 => Square::A2,
            9 => Square::B2,
            10 => Square::C2,
            11 => Square::D2,
            12 => Square::E2,
            13 => Square::F2,
            14 => Square::G2,
            15 => Square::H2,
            16 => Square::A3,
            17 => Square::B3,
            18 => Square::C3,
            19 => Square::D3,
            20 => Square::E3,
            21 => Square::F3,
            22 => Square::G3,
            23 => Square::H3,
            24 => Square::A4,
            25 => Square::B4,
            26 => Square::C4,
            27 => Square::D4,
            28 => Square::E4,
            29 => Square::F4,
            30 => Square::G4,
            31 => Square::H4,
            32 => Square::A5,
            33 => Square::B5,
            34 => Square::C5,
            35 => Square::D5,
            36 => Square::E5,
            37 => Square::F5,
            38 => Square::G5,
            39 => Square::H5,
            40 => Square::A6,
            41 => Square::B6,
            42 => Square::C6,
            43 => Square::D6,
            44 => Square::E6,
            45 => Square::F6,
            46 => Square::G6,
            _ => Square::H6,
        }
    }

    /// Converts the given number into a Square, failing when no Square has
    /// that index.
    pub fn try_from_index(index: u8) -> (r: Result<Square, TypeParseError>)
        ensures
            index < 48 ==> (r matches Ok(v) && v as u8 == index),
            index >= 48 ==> r matches Err(TypeParseError::RangeError(_)),
    {
        if index < 48 {
            Ok(Square::from_index(index))
        } else {
            Err(TypeParseError::RangeError("Square".to_owned()))
        }
    }
}

impl RepresentableType for Square {
    const N: usize = 48;

    open spec fn count() -> nat {
        48
    }

    proof fn lemma_count() {
    }

    open spec fn index(self) -> nat {
        self as nat
    }

    fn from_number(number: u8) -> (r: Square) {
        Square::from_index(number)
    }

    fn try_from_number(number: u8) -> (r: Result<Square, TypeParseError>) {
        Square::try_from_index(number)
    }

    fn number(self) -> (r: u8) {
        self as u8
    }
}

impl File {
    /// Reads a File from its letter, the characters `s[lo..hi]`: `a` names
    /// the first File.
    pub fn parse(s: &[char], lo: usize, hi: usize) -> (r: Result<File, TypeParseError>)
        requires
            lo <= hi <= s@.len(),
        ensures
            match file_text(s@.subrange(lo as int, hi as int), 8) {
                Some(x) => r matches Ok(v) && v as int == x,
                None => r matches Err(TypeParseError::StrError(n)) && n@ == "File"@,
            },
    {
        match parse_file(s, lo, hi, 8u8) {
            Some(x) => Ok(File::from_index(x)),
            None => Err(TypeParseError::StrError("File".to_owned())),
        }
    }

    /// The name of the File: its letter.
    pub fn to_string(self) -> (r: String)
        ensures
            r@ == seq![file_letter(self as int)],
    {
        let mut v: Vec<char> = Vec::new();
        v.push((('a' as u8) + self as u8) as char);
        string_of(v.as_slice())
    }
}

impl Rank {
    /// Reads a Rank from its number, the characters `s[lo..hi]`: `1` names
    /// the first Rank.
    pub fn parse(s: &[char], lo: usize, hi: usize) -> (r: Result<Rank, TypeParseError>)
        requires
            lo <= hi <= s@.len(),
        ensures
            match rank_text(s@.subrange(lo as int, hi as int), 6) {
                Some(y) => r matches Ok(v) && v as int == y,
                None => r matches Err(TypeParseError::StrError(n)) && n@ == "Rank"@,
            },
    {
        match parse_rank_number(s, lo, hi, 6u8) {
            Some(y) => Ok(Rank::from_index(y)),
            None => Err(TypeParseError::StrError("Rank".to_owned())),
        }
    }

    /// The name of the Rank: its number.
    pub fn to_string(self) -> (r: String)
        ensures
            r@ == rank_name(self as int),
    {
        let mut v: Vec<char> = Vec::new();
        v.push((('1' as u8) + self as u8) as char);
        proof {
            assert(v@ =~= rank_name(self as int));
        }
        string_of(v.as_slice())
    }
}

impl Square {
    /// Reads a Square from its name, the characters `s[lo..hi]`: its File
    /// letter followed by its Rank number.
    pub fn parse(s: &[char], lo: usize, hi: usize) -> (r: Result<Square, TypeParseError>)
        requires
            lo <= hi <= s@.len(),
        ensures
            match square_text(s@.subrange(lo as int, hi as int), 8, 6) {
                Some(q) => r matches Ok(v) && v as int == q,
                None => r matches Err(TypeParseError::StrError(n)) && n@ == "File"@,
            },
    {
        match parse_square(s, lo, hi, 8u8, 6u8) {
            Some(q) => {
                assert(q < 48) by (nonlinear_arith)
                    requires
                        square_text(s@.subrange(lo as int, hi as int), 8, 6) == Some(q as int),
                ;
                Ok(Square::from_index(q))
            },
            None => Err(TypeParseError::StrError("File".to_owned())),
        }
    }

    /// The name of the Square: its File letter followed by its Rank number.
    pub fn to_string(self) -> (r: String)
        ensures
            r@ == square_name(self as int, 8),
    {
        let v = square_chars(self as u8, 8u8);
        string_of(v.as_slice())
    }
}

impl core::str::FromStr for File {
    type Err = TypeParseError;

    fn from_str(s: &str) -> (r: Result<File, TypeParseError>)
        ensures
            match file_text(s@, 8) {
                Some(x) => r matches Ok(v) && v as int == x,
                None => r matches Err(TypeParseError::StrError(n)) && n@ == "File"@,
            },
    {
        let chars = chars_of(s);
        proof {
            assert(chars@.subrange(0, chars@.len() as int) =~= s@);
        }
        File::parse(chars.as_slice(), 0, chars.len())
    }
}

impl core::str::FromStr for Rank {
    type Err = TypeParseError;

    fn from_str(s: &str) -> (r: Result<Rank, TypeParseError>)
        ensures
            match rank_text(s@, 6) {
                Some(y) => r matches Ok(v) && v as int == y,
                None => r matches Err(TypeParseError::StrError(n)) && n@ == "Rank"@,
            },
    {
        let chars = chars_of(s);
        proof {
            assert(chars@.subrange(0, chars@.len() as int) =~= s@);
        }
        Rank::parse(chars.as_slice(), 0, chars.len())
    }
}

impl core::str::FromStr for Square {
    type Err = TypeParseError;

    fn from_str(s: &str) -> (r: Result<Square, TypeParseError>)
        ensures
            match square_text(s@, 8, 6) {
                Some(q) => r matches Ok(v) && v as int == q,
                None => r matches Err(TypeParseError::StrError(n)) && n@ == "File"@,
            },
    {
        let chars = chars_of(s);
        proof {
            assert(chars@.subrange(0, chars@.len() as int) =~= s@);
        }
        Square::parse(chars.as_slice(), 0, chars.len())
    }
}


impl Square {
    /// Creates a new Square from the given File and Rank.
    pub fn new(file: File, rank: Rank) -> (r: Square)
        ensures
            r as int == rank as int * 8 + file as int,
    {
        Square::from_index(rank as u8 * 8u8 + file as u8)
    }

    /// Returns the File of the Square.
    pub fn file(self) -> (r: File)
        ensures
            r as int == (self as int) % 8,
    {
        File::from_index(self as u8 % 8u8)
    }

    /// Returns the Rank of the Square.
    pub fn rank(self) -> (r: Rank)
        ensures
            r as int == (self as int) / 8,
    {
        Rank::from_index(self as u8 / 8u8)
    }

    /// Returns the Square to the north of the Square, if there is one.
    pub fn north(self) -> (r: Option<Square>)
        ensures
            (self as int) / 8 == 5 ==> r is None,
            (self as int) / 8 != 5 ==> (r matches Some(s) && s as int == self as int + 8),
    {
        if self as u8 / 8u8 == 5u8 {
            None
        } else {
            Some(Square::from_index(self as u8 + 8u8))
        }
    }

    /// Returns the Square to the south of the Square, if there is one.
    pub fn south(self) -> (r: Option<Square>)
        ensures
            (self as int) / 8 == 0 ==> r is None,
            (self as int) / 8 != 0 ==> (r matches Some(s) && s as int == self as int - 8),
    {
        if self as u8 / 8u8 == 0u8 {
            None
        } else {
            Some(Square::from_index(self as u8 - 8u8))
        }
    }

    /// Returns the Square to the east of the Square, if there is one.
    pub fn east(self) -> (r: Option<Square>)
        ensures
            (self as int) % 8 == 7 ==> r is None,
            (self as int) % 8 != 7 ==> (r matches Some(s) && s as int == self as int + 1),
    {
        if self as u8 % 8u8 == 7u8 {
            None
        } else {
            Some(Square::from_index(self as u8 + 1u8))
        }
    }

    /// Returns the Square to the west of the Square, if there is one.
    pub fn west(self) -> (r: Option<Square>)
        ensures
            (self as int) % 8 == 0 ==> r is None,
            (self as int) % 8 != 0 ==> (r matches Some(s) && s as int == self as int - 1),
    {
        if self as u8 % 8u8 == 0u8 {
            None
        } else {
            Some(Square::from_index(self as u8 - 1u8))
        }
    }
}

/// A set of Squares, held as the bits of a word: bit `i` stands for the Square
/// with index `i`.
#[derive(Copy, Clone, PartialEq, Eq, Debug, Hash, Structural)]
pub struct BitBoard(pub u64);

impl View for BitBoard {
    type V = Set<int>;

    /// The indices of the Squares in the BitBoard.
    open spec fn view(&self) -> Set<int> {
        bits(self.0)
    }
}

impl BitBoard {
    /// The BitBoard holds only Squares of the board.
    pub open spec fn on_board(self) -> bool {
        self@.subset_of(below(48))
    }

    /// Creates a BitBoard from its raw bits.
    pub fn new(raw: u64) -> (r: BitBoard)
        ensures
            r.0 == raw,
    {
        BitBoard(raw)
    }

    /// The empty set.
    pub fn empty() -> (r: BitBoard)
        ensures
            r@ == Set::<int>::empty(),
            r.0 == 0,
    {
        proof {
            crate::bits::lemma_bit_consts();
            assert(bits(0u64) =~= Set::<int>::empty());
        }
        BitBoard(0)
    }

    /// The set of all the Squares of the board.
    pub fn universe() -> (r: BitBoard)
        ensures
            r@ == below(48),
            r.0 == UNIVERSE_BITS,
    {
        proof {
            lemma_geometry();
        }
        BitBoard(UNIVERSE_BITS)
    }

    /// The set holding only the given Square.
    pub fn from_square(square: Square) -> (r: BitBoard)
        ensures
            r@ == set![square as int],
    {
        BitBoard(singleton(square as u64))
    }

    /// The squares of the first File.
    pub fn first_file() -> (r: BitBoard)
        ensures
            r@ == file_set(0, 8, 48),
    {
        proof {
            lemma_geometry();
            assert(bits(FIRST_FILE_BITS) =~= file_set(0, 8, 48));
        }
        BitBoard(FIRST_FILE_BITS)
    }

    /// The squares of the first Rank.
    pub fn first_rank() -> (r: BitBoard)
        ensures
            r@ == rank_set(0, 8, 48),
    {
        proof {
            lemma_geometry();
            assert(bits(FIRST_RANK_BITS) =~= rank_set(0, 8, 48));
        }
        BitBoard(FIRST_RANK_BITS)
    }

    /// Returns the raw bits of the BitBoard.
    pub fn raw(self) -> (r: u64)
        ensures
            r == self.0,
    {
        self.0
    }

    /// Returns `true` if the BitBoard contains the Square.
    pub fn contains(self, square: Square) -> (r: bool)
        ensures
            r == self@.contains(square as int),
    {
        has(self.0, square as u64)
    }

    /// Returns `true` if the BitBoard holds no Square.
    pub fn is_empty(self) -> (r: bool)
        ensures
            r == (self@ == Set::<int>::empty()),
    {
        none(self.0)
    }

    /// Returns the number of Squares in the BitBoard.
    pub fn len(self) -> (r: usize)
        ensures
            r == self@.len(),
            self@.finite(),
    {
        proof {
            lemma_bits_finite(self.0);
        }
        count(self.0)
    }

    /// The union of the two sets.
    pub fn union(self, other: BitBoard) -> (r: BitBoard)
        ensures
            r@ == self@.union(other@),
    {
        proof {
            lemma_bits_ops(self.0, other.0);
        }
        BitBoard(self.0 | other.0)
    }

    /// The intersection of the two sets.
    pub fn intersection(self, other: BitBoard) -> (r: BitBoard)
        ensures
            r@ == self@.intersect(other@),
    {
        proof {
            lemma_bits_ops(self.0, other.0);
        }
        BitBoard(self.0 & other.0)
    }

    /// The symmetric difference of the two sets.
    pub fn symmetric_difference(self, other: BitBoard) -> (r: BitBoard)
        ensures
            r@ == self@.union(other@).difference(self@.intersect(other@)),
    {
        proof {
            lemma_bits_ops(self.0, other.0);
        }
        BitBoard(self.0 ^ other.0)
    }

    /// The complement of the set within the board.
    pub fn complement(self) -> (r: BitBoard)
        ensures
            r@ == below(48).difference(self@),
    {
        proof {
            lemma_geometry();
            lemma_bits_ops(!self.0, UNIVERSE_BITS);
            lemma_bits_ops(self.0, self.0);
            assert(below(48).subset_of(below(64)));
            assert(below(64).difference(self@).intersect(below(48)) =~= below(48).difference(self@));
        }
        BitBoard(!self.0 & UNIVERSE_BITS)
    }

    /// The Squares of the BitBoard which are not in `other`.
    pub fn difference(self, other: BitBoard) -> (r: BitBoard)
        ensures
            r@ == self@.intersect(below(48)).difference(other@),
    {
        let not_other = other.complement();
        let r = self.intersection(not_other);
        assert(r@ =~= self@.intersect(below(48)).difference(other@));
        r
    }

    /// The BitBoard without the given Square.
    pub fn without(self, square: Square) -> (r: BitBoard)
        ensures
            r@ == self@.intersect(below(48)).remove(square as int),
    {
        let r = self.difference(BitBoard::from_square(square));
        assert(r@ =~= self@.intersect(below(48)).remove(square as int));
        r
    }

    /// The BitBoard with the given Square added.
    pub fn with(self, square: Square) -> (r: BitBoard)
        ensures
            r@ == self@.insert(square as int),
    {
        let r = self.union(BitBoard::from_square(square));
        assert(r@ =~= self@.insert(square as int));
        r
    }

    /// Adds the Square to the BitBoard.
    pub fn insert(&mut self, square: Square)
        ensures
            final(self)@ == old(self)@.insert(square as int),
    {
        *self = self.with(square);
    }

    /// Removes the Square from the BitBoard.
    pub fn remove(&mut self, square: Square)
        ensures
            final(self)@ == old(self)@.intersect(below(48)).remove(square as int),
    {
        *self = self.without(square);
    }

    /// Clears the BitBoard, removing every Square.
    pub fn clear(&mut self)
        ensures
            final(self)@ == Set::<int>::empty(),
    {
        *self = BitBoard::empty();
    }

    /// Returns `true` if the two sets have no Square in common.
    pub fn is_disjoint(self, other: BitBoard) -> (r: bool)
        ensures
            r == self@.disjoint(other@),
    {
        let i = self.intersection(other);
        let r = i.is_empty();
        proof {
            if !r {
                assert(!(i@ =~= Set::<int>::empty()));
                let e = choose|e: int| i@.contains(e);
                assert(self@.contains(e) && other@.contains(e));
            } else {
                assert forall|e: int| self@.contains(e) implies !other@.contains(e) by {
                    assert(!i@.contains(e));
                }
            }
        }
        r
    }

    /// Returns `true` if every Square of the board in `self` is also in
    /// `other`.
    pub fn is_subset(self, other: BitBoard) -> (r: bool)
        ensures
            r == self@.intersect(below(48)).subset_of(other@),
    {
        let d = self.difference(other);
        let r = d.is_empty();
        proof {
            if !r {
                assert(!(d@ =~= Set::<int>::empty()));
                let e = choose|e: int| d@.contains(e);
                assert(self@.intersect(below(48)).contains(e) && !other@.contains(e));
            } else {
                assert forall|e: int| self@.intersect(below(48)).contains(e) implies other@.contains(e) by {
                    assert(!d@.contains(e));
                }
            }
        }
        r
    }

    /// Returns `true` if every Square of the board in `other` is also in
    /// `self`.
    pub fn is_superset(self, other: BitBoard) -> (r: bool)
        ensures
            r == other@.intersect(below(48)).subset_of(self@),
    {
        other.is_subset(self)
    }

    /// Shifts every Square one Rank to the north.
    pub fn north(self) -> (r: BitBoard)
        ensures
            r@ == north_set(self@, 8, 48),
    {
        proof {
            lemma_geometry();
        }
        BitBoard(shift_north(self.0, FILES, SQUARES, UNIVERSE_BITS, FIRST_FILE_BITS))
    }

    /// Shifts every Square one Rank to the south.
    pub fn south(self) -> (r: BitBoard)
        ensures
            r@ == south_set(self@, 8),
    {
        BitBoard(shift_south(self.0, FILES))
    }

    /// Shifts every Square one File to the east.
    pub fn east(self) -> (r: BitBoard)
        ensures
            r@ == east_set(self@, 8, 48),
    {
        proof {
            lemma_geometry();
        }
        BitBoard(shift_east(self.0, FILES, SQUARES, UNIVERSE_BITS, FIRST_FILE_BITS))
    }

    /// Shifts every Square one File to the west.
    pub fn west(self) -> (r: BitBoard)
        ensures
            r@ == west_set(self@, 8, 48),
    {
        proof {
            lemma_geometry();
        }
        BitBoard(shift_west(self.0, FILES, SQUARES, UNIVERSE_BITS, FIRST_FILE_BITS))
    }

    /// Returns a BitBoard containing all the Squares of the given File.
    pub fn file(file: File) -> (r: BitBoard)
        ensures
            r@ == file_set(file as int, 8, 48),
    {
        let shift = file as u64;
        proof {
            lemma_geometry();
            lemma_bit_shifts(FIRST_FILE_BITS, shift);
            assert forall|i: int| #[trigger] bits(FIRST_FILE_BITS << shift).contains(i)
                == file_set(shift as int, 8, 48).contains(i) by {
                if 0 <= i < 64 && i >= shift {
                    assert(bit(FIRST_FILE_BITS, i - shift) == (0 <= i - shift < 48 && (i - shift) % 8 == 0));
                }
            }
            assert(bits(FIRST_FILE_BITS << shift) =~= file_set(shift as int, 8, 48));
        }
        BitBoard(FIRST_FILE_BITS << shift)
    }

    /// Returns a BitBoard containing all the Squares of the given Rank.
    pub fn rank(rank: Rank) -> (r: BitBoard)
        ensures
            r@ == rank_set(rank as int, 8, 48),
    {
        let k = rank as u64;
        let shift = 8u64 * k;
        proof {
            lemma_geometry();
            lemma_bit_shifts(FIRST_RANK_BITS, shift);
            assert forall|i: int| #[trigger] bits(FIRST_RANK_BITS << shift).contains(i)
                == rank_set(rank as int, 8, 48).contains(i) by {
                if 0 <= i < 64 && i >= shift {
                    assert(bit(FIRST_RANK_BITS, i - shift) == (0 <= i - shift < 8));
                }
            }
            assert(bits(FIRST_RANK_BITS << shift) =~= rank_set(rank as int, 8, 48));
        }
        BitBoard(FIRST_RANK_BITS << shift)
    }

    /// Removes the lowest Square of the BitBoard and returns it, or returns
    /// `None` if the BitBoard is empty.
    pub fn next(&mut self) -> (r: Option<Square>)
        requires
            old(self).on_board(),
        ensures
            old(self)@ == Set::<int>::empty() ==> r is None && final(self)@ == old(self)@,
            old(self)@ != Set::<int>::empty() ==> (r matches Some(sq) && sq as int == bit_seq(
                old(self).0,
            )[0] && final(self)@ == old(self)@.remove(sq as int)),
            bit_seq(final(self).0) == if r is Some {
                bit_seq(old(self).0).drop_first()
            } else {
                bit_seq(old(self).0)
            },
            final(self).on_board(),
    {
        if self.0 == 0 {
            proof {
                crate::bits::lemma_bit_consts();
                assert(self@ =~= Set::<int>::empty());
            }
            None
        } else {
            let (sq, rest) = pop_lowest(self.0);
            proof {
                assert(self@ != Set::<int>::empty()) by {
                    assert(self@.contains(sq as int));
                }
                assert(below(48).contains(sq as int));
                assert(bit_seq(self.0) == seq![sq as int] + bit_seq(rest));
                assert((seq![sq as int] + bit_seq(rest)).drop_first() =~= bit_seq(rest));
            }
            self.0 = rest;
            Some(Square::from_index(sq as u8))
        }
    }
}

impl BitBoard {
    /// Returns `true` if every Square of the BitBoard is on the board.
    pub fn is_on_board(self) -> (r: bool)
        ensures
            r == self.on_board(),
    {
        let on = self.intersection(BitBoard::universe());
        let r = on.0 == self.0;
        proof {
            if self.on_board() {
                assert(on@ =~= self@);
                crate::bits::lemma_bits_eq(on.0, self.0);
            }
        }
        r
    }
}

impl SquareType for Square {
    type File = File;
    type Rank = Rank;

    fn new(file: File, rank: Rank) -> (r: Square) {
        Square::new(file, rank)
    }

    fn file(self) -> (r: File) {
        Square::file(self)
    }

    fn rank(self) -> (r: Rank) {
        Square::rank(self)
    }

    fn north(self) -> (r: Option<Square>) {
        Square::north(self)
    }

    fn south(self) -> (r: Option<Square>) {
        Square::south(self)
    }

    fn east(self) -> (r: Option<Square>) {
        Square::east(self)
    }

    fn west(self) -> (r: Option<Square>) {
        Square::west(self)
    }
}

impl BitBoardType for BitBoard {
    type Square = Square;

    fn first_file() -> (r: BitBoard) {
        BitBoard::first_file()
    }

    fn first_rank() -> (r: BitBoard) {
        BitBoard::first_rank()
    }

    fn north(self) -> (r: BitBoard) {
        BitBoard::north(self)
    }

    fn south(self) -> (r: BitBoard) {
        BitBoard::south(self)
    }

    fn east(self) -> (r: BitBoard) {
        BitBoard::east(self)
    }

    fn west(self) -> (r: BitBoard) {
        BitBoard::west(self)
    }

    fn file(file: File) -> (r: BitBoard) {
        BitBoard::file(file)
    }

    fn rank(rank: Rank) -> (r: BitBoard) {
        BitBoard::rank(rank)
    }
}

impl BitBoard {
    /// The letter of each Square in the picture of the BitBoard: `1` for
    /// the Squares in it, `0` for the others.
    pub open spec fn cells(self) -> Seq<char> {
        Seq::new(48, |i: int| if self@.contains(i) {
            '1'
        } else {
            '0'
        })
    }

    /// The picture of the BitBoard as ASCII art: a `1` for each Square in
    /// it and a `0` for each other, each followed by a space, the top Rank
    /// first.
    pub fn to_string(&self) -> (r: String)
        ensures
            r@ == rank_lines(self.cells(), 8, 6, 0, false),
    {
        let mut cells: Vec<char> = Vec::new();
        let mut i: u8 = 0;
        while i < 48
            invariant
                i <= 48,
                cells@ == self.cells().subrange(0, i as int),
            decreases 48 - i,
        {
            let c = if self.contains(Square::from_index(i)) {
                '1'
            } else {
                '0'
            };
            cells.push(c);
            i = i + 1;
            proof {
                assert(cells@ =~= self.cells().subrange(0, i as int));
            }
        }
        let mut out: Vec<char> = Vec::new();
        push_rank_lines(&mut out, cells.as_slice(), 8, 6, false);
        proof {
            assert(cells@ =~= self.cells());
            assert(out@ =~= rank_lines(self.cells(), 8, 6, 0, false));
        }
        string_of(out.as_slice())
    }
}

impl SetType<Square> for BitBoard {
    open spec fn members(&self) -> Set<int> {
        self@
    }

    fn empty() -> (r: BitBoard) {
        BitBoard::empty()
    }

    fn universe() -> (r: BitBoard) {
        BitBoard::universe()
    }

    fn new() -> (r: BitBoard) {
        BitBoard::empty()
    }

    fn is_disjoint(self, other: BitBoard) -> (r: bool) {
        BitBoard::is_disjoint(self, other)
    }

    fn is_subset(self, other: BitBoard) -> (r: bool) {
        BitBoard::is_subset(self, other)
    }

    fn is_superset(self, other: BitBoard) -> (r: bool) {
        BitBoard::is_superset(self, other)
    }

    fn is_empty(self) -> (r: bool) {
        BitBoard::is_empty(self)
    }

    fn len(self) -> (r: usize) {
        BitBoard::len(self)
    }

    fn contains(self, element: Square) -> (r: bool) {
        BitBoard::contains(self, element)
    }

    fn insert(&mut self, element: Square) {
        BitBoard::insert(self, element)
    }

    fn remove(&mut self, element: Square) {
        BitBoard::remove(self, element)
    }

    fn clear(&mut self) {
        BitBoard::clear(self)
    }
}

} // verus!
