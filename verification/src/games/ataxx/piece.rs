//! Ataxx Colors and Pieces.
use vstd::prelude::*;
use vstd::std_specs::ops::NotSpecImpl;
use crate::interface::{ColoredPieceType, ColorType, RepresentableType, TypeParseError};
use crate::interface::parse::{chars_of, string_of};
use vstd::string::StringSliceAdditionalSpecFns;

verus! {

/// The two sides of an Ataxx game. Black moves first.
#[derive(Copy, Clone, PartialEq, Eq, Debug, Hash, Structural)]
pub enum Color {
    Black,
    White,
}

impl Color {
    /// The number of Colors.
    pub const N: usize = 2;

    /// The other Color.
    pub open spec fn other(self) -> Color {
        match self {
            Color::Black => Color::White,
            Color::White => Color::Black,
        }
    }
}

impl core::ops::Not for Color {
    type Output = Color;

    /// Switches to the opposite Color.
    fn not(self) -> (r: Color)
        ensures
            r == self.other(),
    {
        match self {
            Color::Black => Color::White,
            Color::White => Color::Black,
        }
    }
}

impl NotSpecImpl for Color {
    open spec fn obeys_not_spec() -> bool {
        true
    }

    open spec fn not_req(self) -> bool {
        true
    }

    open spec fn not_spec(self) -> Color {
        self.other()
    }
}

/// The kinds of pieces of Ataxx: the stone and the blocker.
#[derive(Copy, Clone, PartialEq, Eq, Debug, Hash, Structural)]
pub enum Piece {
    Piece,
    Block,
}

impl Piece {
    /// The number of Pieces.
    pub const N: usize = 2;
}

/// The pieces of Ataxx with their Color; the blocker has none.
#[derive(Copy, Clone, PartialEq, Eq, Debug, Hash, Structural)]
pub enum ColoredPiece {
    BlackPiece,
    WhitePiece,
    Block,
}

impl ColoredPiece {
    /// The number of ColoredPieces.
    pub const N: usize = 3;

    /// Creates the ColoredPiece of the given Piece and Color: a stone of
    /// that Color, or the blocker, which has no Color.
    pub fn new(piece: Piece, color: Color) -> (r: ColoredPiece)
        ensures
            r == (match piece {
                Piece::Block => ColoredPiece::Block,
                Piece::Piece => match color {
                    Color::Black => ColoredPiece::BlackPiece,
                    Color::White => ColoredPiece::WhitePiece,
                },
            }),
    {
        match (piece, color) {
            (Piece::Block, _) => ColoredPiece::Block,
            (Piece::Piece, Color::Black) => ColoredPiece::BlackPiece,
            (Piece::Piece, Color::White) => ColoredPiece::WhitePiece,
        }
    }

    /// Returns the Piece of the ColoredPiece.
    pub fn piece(self) -> (r: Piece)
        ensures
            r == (if self == ColoredPiece::Block {
                Piece::Block
            } else {
                Piece::Piece
            }),
    {
        match self {
            ColoredPiece::BlackPiece | ColoredPiece::WhitePiece => Piece::Piece,
            ColoredPiece::Block => Piece::Block,
        }
    }

    /// Returns the Color of the ColoredPiece; the blocker has no Color.
    pub fn color(self) -> (r: Color)
        requires
            self != ColoredPiece::Block,
        ensures
            r as int == self as int,
    {
        match self {
            ColoredPiece::BlackPiece => Color::Black,
            _ => Color::White,
        }
    }
}

/// The Color named by the text: `x` for Black, `o` for White.
pub open spec fn color_text(t: Seq<char>) -> Option<Color> {
    if t == seq!['x'] {
        Some(Color::Black)
    } else if t == seq!['o'] {
        Some(Color::White)
    } else {
        None
    }
}

/// The name of a Color.
pub open spec fn color_name(c: Color) -> Seq<char> {
    match c {
        Color::Black => seq!['x'],
        Color::White => seq!['o'],
    }
}

/// The Piece named by the text: `x` for the stone, `-` for the blocker.
pub open spec fn piece_text(t: Seq<char>) -> Option<Piece> {
    if t == seq!['x'] {
        Some(Piece::Piece)
    } else if t == seq!['-'] {
        Some(Piece::Block)
    } else {
        None
    }
}

/// The ColoredPiece named by the text: `x` for a Black stone, `o` for a
/// White stone, `-` for the blocker.
pub open spec fn colored_piece_text(t: Seq<char>) -> Option<ColoredPiece> {
    if t == seq!['x'] {
        Some(ColoredPiece::BlackPiece)
    } else if t == seq!['o'] {
        Some(ColoredPiece::WhitePiece)
    } else if t == seq!['-'] {
        Some(ColoredPiece::Block)
    } else {
        None
    }
}

/// Texts of one character differ when their characters differ.
proof fn lemma_single_ne(c: char, d: char)
    ensures
        c != d ==> seq![c] != seq![d],
{
    if c != d {
        assert(seq![c][0] != seq![d][0]);
    }
}

/// The single character of `s[lo..hi]`, if it holds exactly one.
fn single_char(s: &[char], lo: usize, hi: usize) -> (r: Option<char>)
    requires
        lo <= hi <= s@.len(),
    ensures
        r matches Some(c) ==> s@.subrange(lo as int, hi as int) == seq![c],
        r is None ==> s@.subrange(lo as int, hi as int).len() != 1,
{
    if hi - lo == 1 {
        proof {
            assert(s@.subrange(lo as int, hi as int) =~= seq![s@[lo as int]]);
        }
        Some(s[lo])
    } else {
        None
    }
}

/// The string of one character.
fn char_string(c: char) -> (r: String)
    ensures
        r@ == seq![c],
{
    let mut v: Vec<char> = Vec::new();
    v.push(c);
    proof {
        assert(v@ =~= seq![c]);
    }
    string_of(v.as_slice())
}

impl Color {
    /// Reads a Color from its name, the characters `s[lo..hi]`.
    pub fn parse(s: &[char], lo: usize, hi: usize) -> (r: Result<Color, TypeParseError>)
        requires
            lo <= hi <= s@.len(),
        ensures
            match color_text(s@.subrange(lo as int, hi as int)) {
                Some(c) => r == Ok::<Color, TypeParseError>(c),
                None => r matches Err(TypeParseError::StrError(n)) && n@ == "Color"@,
            },
    {
        let c = single_char(s, lo, hi);
        proof {
            if let Some(d) = c {
                lemma_single_ne(d, 'x');
                lemma_single_ne(d, 'o');
                lemma_single_ne(d, '-');
                lemma_single_ne('x', 'o');
                lemma_single_ne('x', '-');
                lemma_single_ne('o', '-');
            }
        }
        match c {
            Some('x') => Ok(Color::Black),
            Some('o') => Ok(Color::White),
            _ => Err(TypeParseError::StrError("Color".to_owned())),
        }
    }

    /// The name of the Color.
    pub fn to_string(self) -> (r: String)
        ensures
            r@ == color_name(self),
    {
        match self {
            Color::Black => char_string('x'),
            Color::White => char_string('o'),
        }
    }
}

impl Piece {
    /// Reads a Piece from its name, the characters `s[lo..hi]`.
    pub fn parse(s: &[char], lo: usize, hi: usize) -> (r: Result<Piece, TypeParseError>)
        requires
            lo <= hi <= s@.len(),
        ensures
            match piece_text(s@.subrange(lo as int, hi as int)) {
                Some(p) => r == Ok::<Piece, TypeParseError>(p),
                None => r matches Err(TypeParseError::StrError(n)) && n@ == "Piece"@,
            },
    {
        let c = single_char(s, lo, hi);
        proof {
            if let Some(d) = c {
                lemma_single_ne(d, 'x');
                lemma_single_ne(d, 'o');
                lemma_single_ne(d, '-');
                lemma_single_ne('x', 'o');
                lemma_single_ne('x', '-');
                lemma_single_ne('o', '-');
            }
        }
        match c {
            Some('x') => Ok(Piece::Piece),
            Some('-') => Ok(Piece::Block),
            _ => Err(TypeParseError::StrError("Piece".to_owned())),
        }
    }

    /// The name of the Piece.
    pub fn to_string(self) -> (r: String)
        ensures
            r@ == (match self {
                Piece::Piece => seq!['x'],
                Piece::Block => seq!['-'],
            }),
    {
        match self {
            Piece::Piece => char_string('x'),
            Piece::Block => char_string('-'),
        }
    }
}

impl ColoredPiece {
    /// Reads a ColoredPiece from its name, the characters `s[lo..hi]`.
    pub fn parse(s: &[char], lo: usize, hi: usize) -> (r: Result<ColoredPiece, TypeParseError>)
        requires
            lo <= hi <= s@.len(),
        ensures
            match colored_piece_text(s@.subrange(lo as int, hi as int)) {
                Some(p) => r == Ok::<ColoredPiece, TypeParseError>(p),
                None => r matches Err(TypeParseError::StrError(n)) && n@ == "ColoredPiece"@,
            },
    {
        let c = single_char(s, lo, hi);
        proof {
            if let Some(d) = c {
                lemma_single_ne(d, 'x');
                lemma_single_ne(d, 'o');
                lemma_single_ne(d, '-');
                lemma_single_ne('x', 'o');
                lemma_single_ne('x', '-');
                lemma_single_ne('o', '-');
            }
        }
        match c {
            Some('x') => Ok(ColoredPiece::BlackPiece),
            Some('o') => Ok(ColoredPiece::WhitePiece),
            Some('-') => Ok(ColoredPiece::Block),
            _ => Err(TypeParseError::StrError("ColoredPiece".to_owned())),
        }
    }

    /// The name of the ColoredPiece.
    pub fn to_string(self) -> (r: String)
        ensures
            r@ == (match self {
                ColoredPiece::BlackPiece => seq!['x'],
                ColoredPiece::WhitePiece => seq!['o'],
                ColoredPiece::Block => seq!['-'],
            }),
    {
        match self {
            ColoredPiece::BlackPiece => char_string('x'),
            ColoredPiece::WhitePiece => char_string('o'),
            ColoredPiece::Block => char_string('-'),
        }
    }
}

impl core::str::FromStr for Color {
    type Err = TypeParseError;

    fn from_str(s: &str) -> (r: Result<Color, TypeParseError>)
        ensures
            match color_text(s@) {
                Some(c) => r == Ok::<Color, TypeParseError>(c),
                None => r matches Err(TypeParseError::StrError(n)) && n@ == "Color"@,
            },
    {
        let chars = chars_of(s);
        proof {
            assert(chars@.subrange(0, chars@.len() as int) =~= s@);
        }
        Color::parse(chars.as_slice(), 0, chars.len())
    }
}

impl core::str::FromStr for Piece {
    type Err = TypeParseError;

    fn from_str(s: &str) -> (r: Result<Piece, TypeParseError>)
        ensures
            match piece_text(s@) {
                Some(p) => r == Ok::<Piece, TypeParseError>(p),
                None => r matches Err(TypeParseError::StrError(n)) && n@ == "Piece"@,
            },
    {
        let chars = chars_of(s);
        proof {
            assert(chars@.subrange(0, chars@.len() as int) =~= s@);
        }
        Piece::parse(chars.as_slice(), 0, chars.len())
    }
}

impl core::str::FromStr for ColoredPiece {
    type Err = TypeParseError;

    fn from_str(s: &str) -> (r: Result<ColoredPiece, TypeParseError>)
        ensures
            match colored_piece_text(s@) {
                Some(p) => r == Ok::<ColoredPiece, TypeParseError>(p),
                None => r matches Err(TypeParseError::StrError(n)) && n@ == "ColoredPiece"@,
            },
    {
        let chars = chars_of(s);
        proof {
            assert(chars@.subrange(0, chars@.len() as int) =~= s@);
        }
        ColoredPiece::parse(chars.as_slice(), 0, chars.len())
    }
}

/// ColorParseError represents an error encountered while reading a Color
/// from one of its identifiers.
#[derive(Debug, PartialEq, Eq)]
pub enum ColorParseError {
    /// The identifier has more than one byte.
    StringTooLong,
    /// The identifier names no Color.
    StringFormatInvalid(String),
}

/// PieceParseError represents an error encountered while reading a piece
/// from its identifier.
#[derive(Debug, PartialEq, Eq)]
pub enum PieceParseError {
    /// The identifier has more than one byte.
    StringTooLong,
    /// The identifier names no piece.
    StringFormatInvalid(String),
}

/// The Color named by one of its identifiers: `x`, `X`, `b` or `B` for
/// Black, `o`, `O`, `w` or `W` for White.
pub open spec fn color_identifier(t: Seq<char>) -> Option<Color> {
    if t == seq!['x'] || t == seq!['X'] || t == seq!['b'] || t == seq!['B'] {
        Some(Color::Black)
    } else if t == seq!['o'] || t == seq!['O'] || t == seq!['w'] || t == seq!['W'] {
        Some(Color::White)
    } else {
        None
    }
}

impl Color {
    /// Reads a Color from one of its identifiers: `x`, `X`, `b`, `B` for
    /// Black and `o`, `O`, `w`, `W` for White. Text of other than one byte
    /// is too long.
    pub fn from_identifier(s: &str) -> (r: Result<Color, ColorParseError>)
        ensures
            s.len() != 1 ==> r == Err::<Color, ColorParseError>(ColorParseError::StringTooLong),
            s.len() == 1 ==> match color_identifier(s@) {
                Some(c) => r == Ok::<Color, ColorParseError>(c),
                None => r matches Err(ColorParseError::StringFormatInvalid(t)) && t@ == s@,
            },
    {
        broadcast use vstd::string::is_ascii_spec_bytes;

        if s.len() != 1 {
            return Err(ColorParseError::StringTooLong);
        }
        let chars = chars_of(s);
        let c = single_char(chars.as_slice(), 0, chars.len());
        proof {
            assert(chars@.subrange(0, chars@.len() as int) =~= s@);
            if let Some(d) = c {
                lemma_single_ne(d, 'x');
                lemma_single_ne(d, 'X');
                lemma_single_ne(d, 'b');
                lemma_single_ne(d, 'B');
                lemma_single_ne(d, 'o');
                lemma_single_ne(d, 'O');
                lemma_single_ne(d, 'w');
                lemma_single_ne(d, 'W');
            }
        }
        match c {
            Some('x') | Some('X') | Some('b') | Some('B') => Ok(Color::Black),
            Some('o') | Some('O') | Some('w') | Some('W') => Ok(Color::White),
            _ => Err(ColorParseError::StringFormatInvalid(s.to_owned())),
        }
    }
}

impl RepresentableType for Color {
    const N: usize = 2;

    open spec fn count() -> nat {
        2
    }

    proof fn lemma_count() {
    }

    open spec fn index(self) -> nat {
        self as nat
    }

    fn from_number(number: u8) -> (r: Color) {
        match number {
            0 => Color::Black,
            _ => Color::White,
        }
    }

    fn try_from_number(number: u8) -> (r: Result<Color, TypeParseError>) {
        if number < 2 {
            Ok(Color::from_number(number))
        } else {
            Err(TypeParseError::RangeError("Color".to_owned()))
        }
    }

    fn number(self) -> (r: u8) {
        self as u8
    }
}

impl RepresentableType for Piece {
    const N: usize = 2;

    open spec fn count() -> nat {
        2
    }

    proof fn lemma_count() {
    }

    open spec fn index(self) -> nat {
        self as nat
    }

    fn from_number(number: u8) -> (r: Piece) {
        match number {
            0 => Piece::Piece,
            _ => Piece::Block,
        }
    }

    fn try_from_number(number: u8) -> (r: Result<Piece, TypeParseError>) {
        if number < 2 {
            Ok(Piece::from_number(number))
        } else {
            Err(TypeParseError::RangeError("Piece".to_owned()))
        }
    }

    fn number(self) -> (r: u8) {
        self as u8
    }
}

impl RepresentableType for ColoredPiece {
    const N: usize = 3;

    open spec fn count() -> nat {
        3
    }

    proof fn lemma_count() {
    }

    open spec fn index(self) -> nat {
        self as nat
    }

    fn from_number(number: u8) -> (r: ColoredPiece) {
        match number {
            0 => ColoredPiece::BlackPiece,
            1 => ColoredPiece::WhitePiece,
            _ => ColoredPiece::Block,
        }
    }

    fn try_from_number(number: u8) -> (r: Result<ColoredPiece, TypeParseError>) {
        if number < 3 {
            Ok(ColoredPiece::from_number(number))
        } else {
            Err(TypeParseError::RangeError("ColoredPiece".to_owned()))
        }
    }

    fn number(self) -> (r: u8) {
        self as u8
    }
}

impl ColorType for Color {
    fn first() -> (r: Color) {
        Color::Black
    }
}

impl ColoredPieceType for ColoredPiece {
    type Piece = Piece;
    type Color = Color;

    open spec fn has_color(self) -> bool {
        self != ColoredPiece::Block
    }

    open spec fn piece_of(self) -> Piece {
        if self == ColoredPiece::Block {
            Piece::Block
        } else {
            Piece::Piece
        }
    }

    open spec fn color_of(self) -> Color {
        if self == ColoredPiece::BlackPiece {
            Color::Black
        } else {
            Color::White
        }
    }

    fn new(piece: Piece, color: Color) -> (r: ColoredPiece) {
        ColoredPiece::new(piece, color)
    }

    fn piece(self) -> (r: Piece) {
        ColoredPiece::piece(self)
    }

    fn color(self) -> (r: Color) {
        ColoredPiece::color(self)
    }
}

} // verus!
