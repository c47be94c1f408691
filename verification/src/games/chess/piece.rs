//! Chess Colors and Pieces.
use vstd::prelude::*;
use vstd::std_specs::ops::NotSpecImpl;
use crate::interface::{ColoredPieceType, ColorType, RepresentableType, TypeParseError};
use crate::interface::parse::{chars_of, find, first_index, lemma_first_index, string_of};

verus! {

/// The two sides of a chess game. White moves first.
#[derive(Copy, Clone, PartialEq, Eq, Debug, Hash, Structural)]
pub enum Color {
    White,
    Black,
}

impl Color {
    /// The number of Colors.
    pub const N: usize = 2;

    /// The other Color.
    pub open spec fn other(self) -> Color {
        match self {
            Color::White => Color::Black,
            Color::Black => Color::White,
        }
    }
}

impl core::ops::Not for Color {
    type Output = Color;

    /// Switches to the opposite Color.
    fn not(self) -> (r: Color)
        ensures
            r == self.other(),
    {
        match self {
            Color::White => Color::Black,
            Color::Black => Color::White,
        }
    }
}

impl NotSpecImpl for Color {
    open spec fn obeys_not_spec() -> bool {
        true
    }

    open spec fn not_req(self) -> bool {
        true
    }

    open spec fn not_spec(self) -> Color {
        self.other()
    }
}

/// The kinds of chess pieces.
#[derive(Copy, Clone, PartialEq, Eq, Debug, Hash, Structural)]
pub enum Piece {
    Pawn,
    Knight,
    Bishop,
    Rook,
    Queen,
    King,
}

impl Piece {
    /// The number of Pieces.
    pub const N: usize = 6;

    /// Converts the given index into a Piece.
    pub fn from_index(index: u8) -> (r: Piece)
        requires
            index < 6,
        ensures
            r as u8 == index,
    {
        match index {
            0 => Piece::Pawn,
            1 => Piece::Knight,
            2 => Piece::Bishop,
            3 => Piece::Rook,
            4 => Piece::Queen,
            _ => Piece::King,
        }
    }
}

/// The chess pieces with their Color: the White ones first, each Color in
/// the order of the Pieces.
#[derive(Copy, Clone, PartialEq, Eq, Debug, Hash, Structural)]
pub enum ColoredPiece {
    WhitePawn,
    WhiteKnight,
    WhiteBishop,
    WhiteRook,
    WhiteQueen,
    WhiteKing,
    BlackPawn,
    BlackKnight,
    BlackBishop,
    BlackRook,
    BlackQueen,
    BlackKing,
}

impl ColoredPiece {
    /// The number of ColoredPieces.
    pub const N: usize = 12;

    /// Converts the given index into a ColoredPiece.
    pub fn from_index(index: u8) -> (r: ColoredPiece)
        requires
            index < 12,
        ensures
            r as u8 == index,
    {
        match index {
            0 => ColoredPiece::WhitePawn,
            1 => ColoredPiece::WhiteKnight,
            2 => ColoredPiece::WhiteBishop,
            3 => ColoredPiece::WhiteRook,
            4 => ColoredPiece::WhiteQueen,
            5 => ColoredPiece::WhiteKing,
            6 => ColoredPiece::BlackPawn,
            7 => ColoredPiece::BlackKnight,
            8 => ColoredPiece::BlackBishop,
            9 => ColoredPiece::BlackRook,
            10 => ColoredPiece::BlackQueen,
            _ => ColoredPiece::BlackKing,
        }
    }

    /// Creates the ColoredPiece of the given Piece and Color.
    pub fn new(piece: Piece, color: Color) -> (r: ColoredPiece)
        ensures
            r as int == (color as int) * 6 + (piece as int),
    {
        ColoredPiece::from_index(color as u8 * 6 + piece as u8)
    }

    /// Returns the Piece of the ColoredPiece.
    pub fn piece(self) -> (r: Piece)
        ensures
            r as int == (self as int) % 6,
    {
        Piece::from_index(self as u8 % 6)
    }

    /// Returns the Color of the ColoredPiece.
    pub fn color(self) -> (r: Color)
        ensures
            r as int == (self as int) / 6,
    {
        if (self as u8) < 6 {
            Color::White
        } else {
            Color::Black
        }
    }
}

/// The letters of the Pieces.
pub open spec fn piece_letters() -> Seq<char> {
    seq!['p', 'n', 'b', 'r', 'q', 'k']
}

/// The letters of the ColoredPieces: upper case for White.
pub open spec fn colored_piece_letters() -> Seq<char> {
    seq!['P', 'N', 'B', 'R', 'Q', 'K', 'p', 'n', 'b', 'r', 'q', 'k']
}

/// The index of the one letter of the text in the table of letters.
pub open spec fn letter_text(t: Seq<char>, table: Seq<char>) -> Option<int> {
    if t.len() == 1 && first_index(table, t[0]) >= 0 {
        Some(first_index(table, t[0]))
    } else {
        None
    }
}

/// The Color named by the text: `w` for White, `b` for Black.
pub open spec fn color_text(t: Seq<char>) -> Option<Color> {
    if t == seq!['w'] {
        Some(Color::White)
    } else if t == seq!['b'] {
        Some(Color::Black)
    } else {
        None
    }
}

/// The name of a Color.
pub open spec fn color_name(c: Color) -> Seq<char> {
    match c {
        Color::White => seq!['w'],
        Color::Black => seq!['b'],
    }
}

/// The index in `table` of the one character of `s[lo..hi]`.
fn letter_index(s: &[char], lo: usize, hi: usize, table: &[char]) -> (r: Option<u8>)
    requires
        lo <= hi <= s@.len(),
        table@.len() < 256,
    ensures
        match letter_text(s@.subrange(lo as int, hi as int), table@) {
            Some(i) => r == Some(i as u8),
            None => r is None,
        },
{
    if hi - lo != 1 {
        return None;
    }
    proof {
        assert(s@.subrange(lo as int, hi as int)[0] == s@[lo as int]);
        lemma_first_index(table@, s@[lo as int]);
    }
    find(table, s[lo])
}

/// The string of one character.
fn char_string(c: char) -> (r: String)
    ensures
        r@ == seq![c],
{
    let mut v: Vec<char> = Vec::new();
    v.push(c);
    proof {
        assert(v@ =~= seq![c]);
    }
    string_of(v.as_slice())
}

impl Color {
    /// Reads a Color from its name, the characters `s[lo..hi]`.
    pub fn parse(s: &[char], lo: usize, hi: usize) -> (r: Result<Color, TypeParseError>)
        requires
            lo <= hi <= s@.len(),
        ensures
            match color_text(s@.subrange(lo as int, hi as int)) {
                Some(c) => r == Ok::<Color, TypeParseError>(c),
                None => r matches Err(TypeParseError::StrError(n)) && n@ == "Color"@,
            },
    {
        let table = ['w', 'b'];
        proof {
            assert(table@ =~= seq!['w', 'b']);
            let t = s@.subrange(lo as int, hi as int);
            if t.len() == 1 {
                assert(t =~= seq![t[0]]);
                if t[0] != 'w' {
                    assert(t != seq!['w']) by {
                        assert(seq!['w'][0] == 'w');
                    }
                }
                if t[0] != 'b' {
                    assert(t != seq!['b']) by {
                        assert(seq!['b'][0] == 'b');
                    }
                }
            }
            reveal_with_fuel(first_index, 3);
        }
        match letter_index(s, lo, hi, &table) {
            Some(0) => Ok(Color::White),
            Some(_) => Ok(Color::Black),
            None => Err(TypeParseError::StrError("Color".to_owned())),
        }
    }

    /// The name of the Color.
    pub fn to_string(self) -> (r: String)
        ensures
            r@ == color_name(self),
    {
        match self {
            Color::White => char_string('w'),
            Color::Black => char_string('b'),
        }
    }
}

impl Piece {
    /// Reads a Piece from its letter, the characters `s[lo..hi]`.
    pub fn parse(s: &[char], lo: usize, hi: usize) -> (r: Result<Piece, TypeParseError>)
        requires
            lo <= hi <= s@.len(),
        ensures
            match letter_text(s@.subrange(lo as int, hi as int), piece_letters()) {
                Some(i) => r matches Ok(p) && p as int == i,
                None => r matches Err(TypeParseError::StrError(n)) && n@ == "Piece"@,
            },
    {
        let table = ['p', 'n', 'b', 'r', 'q', 'k'];
        proof {
            assert(table@ =~= piece_letters());
            lemma_first_index(table@, ' ');
        }
        match letter_index(s, lo, hi, &table) {
            Some(i) => {
                proof {
                    lemma_first_index(table@, s@[lo as int]);
                }
                Ok(Piece::from_index(i))
            },
            None => Err(TypeParseError::StrError("Piece".to_owned())),
        }
    }

    /// The letter of the Piece.
    pub fn to_string(self) -> (r: String)
        ensures
            r@ == seq![piece_letters()[self as int]],
    {
        let table = ['p', 'n', 'b', 'r', 'q', 'k'];
        proof {
            assert(table@ =~= piece_letters());
        }
        char_string(table[self as usize])
    }
}

impl ColoredPiece {
    /// Reads a ColoredPiece from its letter, the characters `s[lo..hi]`.
    pub fn parse(s: &[char], lo: usize, hi: usize) -> (r: Result<ColoredPiece, TypeParseError>)
        requires
            lo <= hi <= s@.len(),
        ensures
            match letter_text(s@.subrange(lo as int, hi as int), colored_piece_letters()) {
                Some(i) => r matches Ok(p) && p as int == i,
                None => r matches Err(TypeParseError::StrError(n)) && n@ == "ColoredPiece"@,
            },
    {
        let table = ['P', 'N', 'B', 'R', 'Q', 'K', 'p', 'n', 'b', 'r', 'q', 'k'];
        proof {
            assert(table@ =~= colored_piece_letters());
        }
        match letter_index(s, lo, hi, &table) {
            Some(i) => {
                proof {
                    lemma_first_index(table@, s@[lo as int]);
                }
                Ok(ColoredPiece::from_index(i))
            },
            None => Err(TypeParseError::StrError("ColoredPiece".to_owned())),
        }
    }

    /// The letter of the ColoredPiece.
    pub fn to_string(self) -> (r: String)
        ensures
            r@ == seq![colored_piece_letters()[self as int]],
    {
        let table = ['P', 'N', 'B', 'R', 'Q', 'K', 'p', 'n', 'b', 'r', 'q', 'k'];
        proof {
            assert(table@ =~= colored_piece_letters());
        }
        char_string(table[self as usize])
    }
}

impl core::str::FromStr for Color {
    type Err = TypeParseError;

    fn from_str(s: &str) -> (r: Result<Color, TypeParseError>)
        ensures
            match color_text(s@) {
                Some(c) => r == Ok::<Color, TypeParseError>(c),
                None => r matches Err(TypeParseError::StrError(n)) && n@ == "Color"@,
            },
    {
        let chars = chars_of(s);
        proof {
            assert(chars@.subrange(0, chars@.len() as int) =~= s@);
        }
        Color::parse(chars.as_slice(), 0, chars.len())
    }
}

impl core::str::FromStr for Piece {
    type Err = TypeParseError;

    fn from_str(s: &str) -> (r: Result<Piece, TypeParseError>)
        ensures
            match letter_text(s@, piece_letters()) {
                Some(i) => r matches Ok(p) && p as int == i,
                None => r matches Err(TypeParseError::StrError(n)) && n@ == "Piece"@,
            },
    {
        let chars = chars_of(s);
        proof {
            assert(chars@.subrange(0, chars@.len() as int) =~= s@);
        }
        Piece::parse(chars.as_slice(), 0, chars.len())
    }
}

impl core::str::FromStr for ColoredPiece {
    type Err = TypeParseError;

    fn from_str(s: &str) -> (r: Result<ColoredPiece, TypeParseError>)
        ensures
            match letter_text(s@, colored_piece_letters()) {
                Some(i) => r matches Ok(p) && p as int == i,
                None => r matches Err(TypeParseError::StrError(n)) && n@ == "ColoredPiece"@,
            },
    {
        let chars = chars_of(s);
        proof {
            assert(chars@.subrange(0, chars@.len() as int) =~= s@);
        }
        ColoredPiece::parse(chars.as_slice(), 0, chars.len())
    }
}

impl RepresentableType for Color {
    const N: usize = 2;

    open spec fn count() -> nat {
        2
    }

    proof fn lemma_count() {
    }

    open spec fn index(self) -> nat {
        self as nat
    }

    fn from_number(number: u8) -> (r: Color) {
        match number {
            0 => Color::White,
            _ => Color::Black,
        }
    }

    fn try_from_number(number: u8) -> (r: Result<Color, TypeParseError>) {
        if number < 2 {
            Ok(Color::from_number(number))
        } else {
            Err(TypeParseError::RangeError("Color".to_owned()))
        }
    }

    fn number(self) -> (r: u8) {
        self as u8
    }
}

impl RepresentableType for Piece {
    const N: usize = 6;

    open spec fn count() -> nat {
        6
    }

    proof fn lemma_count() {
    }

    open spec fn index(self) -> nat {
        self as nat
    }

    fn from_number(number: u8) -> (r: Piece) {
        Piece::from_index(number)
    }

    fn try_from_number(number: u8) -> (r: Result<Piece, TypeParseError>) {
        if number < 6 {
            Ok(Piece::from_number(number))
        } else {
            Err(TypeParseError::RangeError("Piece".to_owned()))
        }
    }

    fn number(self) -> (r: u8) {
        self as u8
    }
}

impl RepresentableType for ColoredPiece {
    const N: usize = 12;

    open spec fn count() -> nat {
        12
    }

    proof fn lemma_count() {
    }

    open spec fn index(self) -> nat {
        self as nat
    }

    fn from_number(number: u8) -> (r: ColoredPiece) {
        ColoredPiece::from_index(number)
    }

    fn try_from_number(number: u8) -> (r: Result<ColoredPiece, TypeParseError>) {
        if number < 12 {
            Ok(ColoredPiece::from_number(number))
        } else {
            Err(TypeParseError::RangeError("ColoredPiece".to_owned()))
        }
    }

    fn number(self) -> (r: u8) {
        self as u8
    }
}

impl ColorType for Color {
    fn first() -> (r: Color) {
        Color::White
    }
}

impl ColoredPiece {
    /// The letter of the ColoredPiece: upper case for White.
    pub fn letter(self) -> (r: char)
        ensures
            r == colored_piece_letters()[self as int],
    {
        match self {
            ColoredPiece::WhitePawn => 'P',
            ColoredPiece::WhiteKnight => 'N',
            ColoredPiece::WhiteBishop => 'B',
            ColoredPiece::WhiteRook => 'R',
            ColoredPiece::WhiteQueen => 'Q',
            ColoredPiece::WhiteKing => 'K',
            ColoredPiece::BlackPawn => 'p',
            ColoredPiece::BlackKnight => 'n',
            ColoredPiece::BlackBishop => 'b',
            ColoredPiece::BlackRook => 'r',
            ColoredPiece::BlackQueen => 'q',
            ColoredPiece::BlackKing => 'k',
        }
    }
}

/// The Piece of index `i`, below 6.
pub open spec fn piece_of_index(i: int) -> Piece {
    if i == 0 {
        Piece::Pawn
    } else if i == 1 {
        Piece::Knight
    } else if i == 2 {
        Piece::Bishop
    } else if i == 3 {
        Piece::Rook
    } else if i == 4 {
        Piece::Queen
    } else {
        Piece::King
    }
}

/// A Piece is the Piece of its index.
proof fn lemma_piece_of_index(p: Piece)
    ensures
        piece_of_index(p as int) == p,
{
    match p {
        Piece::Pawn => {},
        Piece::Knight => {},
        Piece::Bishop => {},
        Piece::Rook => {},
        Piece::Queen => {},
        Piece::King => {},
    }
}

impl ColoredPieceType for ColoredPiece {
    type Piece = Piece;
    type Color = Color;

    open spec fn has_color(self) -> bool {
        true
    }

    open spec fn piece_of(self) -> Piece {
        piece_of_index((self as int) % 6)
    }

    open spec fn color_of(self) -> Color {
        if (self as int) < 6 {
            Color::White
        } else {
            Color::Black
        }
    }

    fn new(piece: Piece, color: Color) -> (r: ColoredPiece) {
        let r = ColoredPiece::new(piece, color);
        proof {
            lemma_piece_of_index(piece);
            assert((color as int * 6 + piece as int) % 6 == piece as int);
        }
        r
    }

    fn piece(self) -> (r: Piece) {
        let r = ColoredPiece::piece(self);
        proof {
            lemma_piece_of_index(r);
        }
        r
    }

    fn color(self) -> (r: Color) {
        ColoredPiece::color(self)
    }
}

} // verus!
