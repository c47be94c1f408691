//! Isolation Colors and Pieces.
use vstd::prelude::*;
use vstd::std_specs::ops::NotSpecImpl;
use crate::interface::{ColoredPieceType, ColorType, RepresentableType, TypeParseError};
use crate::interface::parse::{chars_of, string_of};

verus! {

/// The two sides of an Isolation game. White moves first.
#[derive(Copy, Clone, PartialEq, Eq, Debug, Hash, Structural)]
pub enum Color {
    White,
    Black,
}

impl Color {
    /// The number of Colors.
    pub const N: usize = 2;

    /// The other Color.
    pub open spec fn other(self) -> Color {
        match self {
            Color::White => Color::Black,
            Color::Black => Color::White,
        }
    }
}

impl core::ops::Not for Color {
    type Output = Color;

    /// Switches to the opposite Color.
    fn not(self) -> (r: Color)
        ensures
            r == self.other(),
    {
        match self {
            Color::White => Color::Black,
            Color::Black => Color::White,
        }
    }
}

impl NotSpecImpl for Color {
    open spec fn obeys_not_spec() -> bool {
        true
    }

    open spec fn not_req(self) -> bool {
        true
    }

    open spec fn not_spec(self) -> Color {
        self.other()
    }
}

/// The kinds of pieces of Isolation: the pawn and the tile.
#[derive(Copy, Clone, PartialEq, Eq, Debug, Hash, Structural)]
pub enum Piece {
    Pawn,
    Tile,
}

impl Piece {
    /// The number of Pieces.
    pub const N: usize = 2;
}

/// The pieces of Isolation with their Color; the tile has none.
#[derive(Copy, Clone, PartialEq, Eq, Debug, Hash, Structural)]
pub enum ColoredPiece {
    WhitePawn,
    BlackPawn,
    Tile,
}

impl ColoredPiece {
    /// The number of ColoredPieces.
    pub const N: usize = 3;

    /// Creates the ColoredPiece of the given Piece and Color: a pawn of
    /// that Color, or the tile, which has no Color.
    pub fn new(piece: Piece, color: Color) -> (r: ColoredPiece)
        ensures
            r == (match piece {
                Piece::Tile => ColoredPiece::Tile,
                Piece::Pawn => match color {
                    Color::White => ColoredPiece::WhitePawn,
                    Color::Black => ColoredPiece::BlackPawn,
                },
            }),
    {
        match (piece, color) {
            (Piece::Tile, _) => ColoredPiece::Tile,
            (Piece::Pawn, Color::White) => ColoredPiece::WhitePawn,
            (Piece::Pawn, Color::Black) => ColoredPiece::BlackPawn,
        }
    }

    /// Returns the Piece of the ColoredPiece.
    pub fn piece(self) -> (r: Piece)
        ensures
            r == (if self == ColoredPiece::Tile {
                Piece::Tile
            } else {
                Piece::Pawn
            }),
    {
        match self {
            ColoredPiece::WhitePawn | ColoredPiece::BlackPawn => Piece::Pawn,
            ColoredPiece::Tile => Piece::Tile,
        }
    }

    /// Returns the Color of the ColoredPiece; the tile has no Color.
    pub fn color(self) -> (r: Color)
        requires
            self != ColoredPiece::Tile,
        ensures
            r as int == self as int,
    {
        match self {
            ColoredPiece::WhitePawn => Color::White,
            _ => Color::Black,
        }
    }
}

/// The Color named by the text: `w` for White, `b` for Black.
pub open spec fn color_text(t: Seq<char>) -> Option<Color> {
    if t == seq!['w'] {
        Some(Color::White)
    } else if t == seq!['b'] {
        Some(Color::Black)
    } else {
        None
    }
}

/// The name of a Color.
pub open spec fn color_name(c: Color) -> Seq<char> {
    match c {
        Color::White => seq!['w'],
        Color::Black => seq!['b'],
    }
}

/// The Piece named by the text: `p` for the pawn, `-` for the tile.
pub open spec fn piece_text(t: Seq<char>) -> Option<Piece> {
    if t == seq!['p'] {
        Some(Piece::Pawn)
    } else if t == seq!['-'] {
        Some(Piece::Tile)
    } else {
        None
    }
}

/// The ColoredPiece named by the text: `P` for the White pawn, `p` for the
/// Black pawn, `-` for the tile.
pub open spec fn colored_piece_text(t: Seq<char>) -> Option<ColoredPiece> {
    if t == seq!['P'] {
        Some(ColoredPiece::WhitePawn)
    } else if t == seq!['p'] {
        Some(ColoredPiece::BlackPawn)
    } else if t == seq!['-'] {
        Some(ColoredPiece::Tile)
    } else {
        None
    }
}

/// Texts of one character differ when their characters differ.
proof fn lemma_single_ne(c: char, d: char)
    ensures
        c != d ==> seq![c] != seq![d],
{
    if c != d {
        assert(seq![c][0] != seq![d][0]);
    }
}

/// The single character of `s[lo..hi]`, if it holds exactly one.
fn single_char(s: &[char], lo: usize, hi: usize) -> (r: Option<char>)
    requires
        lo <= hi <= s@.len(),
    ensures
        r matches Some(c) ==> s@.subrange(lo as int, hi as int) == seq![c],
        r is None ==> s@.subrange(lo as int, hi as int).len() != 1,
{
    if hi - lo == 1 {
        proof {
            assert(s@.subrange(lo as int, hi as int) =~= seq![s@[lo as int]]);
        }
        Some(s[lo])
    } else {
        None
    }
}

/// The string of one character.
fn char_string(c: char) -> (r: String)
    ensures
        r@ == seq![c],
{
    let mut v: Vec<char> = Vec::new();
    v.push(c);
    proof {
        assert(v@ =~= seq![c]);
    }
    string_of(v.as_slice())
}

impl Color {
    /// Reads a Color from its name, the characters `s[lo..hi]`.
    pub fn parse(s: &[char], lo: usize, hi: usize) -> (r: Result<Color, TypeParseError>)
        requires
            lo <= hi <= s@.len(),
        ensures
            match color_text(s@.subrange(lo as int, hi as int)) {
                Some(c) => r == Ok::<Color, TypeParseError>(c),
                None => r matches Err(TypeParseError::StrError(n)) && n@ == "Color"@,
            },
    {
        let c = single_char(s, lo, hi);
        proof {
            if let Some(d) = c {
                lemma_single_ne(d, 'w');
                lemma_single_ne(d, 'b');
                lemma_single_ne(d, 'p');
                lemma_single_ne(d, 'P');
                lemma_single_ne(d, '-');
                lemma_single_ne('w', 'b');
                lemma_single_ne('p', 'P');
                lemma_single_ne('p', '-');
                lemma_single_ne('P', '-');
            }
        }
        match c {
            Some('w') => Ok(Color::White),
            Some('b') => Ok(Color::Black),
            _ => Err(TypeParseError::StrError("Color".to_owned())),
        }
    }

    /// The name of the Color.
    pub fn to_string(self) -> (r: String)
        ensures
            r@ == color_name(self),
    {
        match self {
            Color::White => char_string('w'),
            Color::Black => char_string('b'),
        }
    }
}

impl Piece {
    /// Reads a Piece from its name, the characters `s[lo..hi]`.
    pub fn parse(s: &[char], lo: usize, hi: usize) -> (r: Result<Piece, TypeParseError>)
        requires
            lo <= hi <= s@.len(),
        ensures
            match piece_text(s@.subrange(lo as int, hi as int)) {
                Some(p) => r == Ok::<Piece, TypeParseError>(p),
                None => r matches Err(TypeParseError::StrError(n)) && n@ == "Piece"@,
            },
    {
        let c = single_char(s, lo, hi);
        proof {
            if let Some(d) = c {
                lemma_single_ne(d, 'w');
                lemma_single_ne(d, 'b');
                lemma_single_ne(d, 'p');
                lemma_single_ne(d, 'P');
                lemma_single_ne(d, '-');
                lemma_single_ne('w', 'b');
                lemma_single_ne('p', 'P');
                lemma_single_ne('p', '-');
                lemma_single_ne('P', '-');
            }
        }
        match c {
            Some('p') => Ok(Piece::Pawn),
            Some('-') => Ok(Piece::Tile),
            _ => Err(TypeParseError::StrError("Piece".to_owned())),
        }
    }

    /// The name of the Piece.
    pub fn to_string(self) -> (r: String)
        ensures
            r@ == (match self {
                Piece::Pawn => seq!['p'],
                Piece::Tile => seq!['-'],
            }),
    {
        match self {
            Piece::Pawn => char_string('p'),
            Piece::Tile => char_string('-'),
        }
    }
}

impl ColoredPiece {
    /// Reads a ColoredPiece from its name, the characters `s[lo..hi]`.
    pub fn parse(s: &[char], lo: usize, hi: usize) -> (r: Result<ColoredPiece, TypeParseError>)
        requires
            lo <= hi <= s@.len(),
        ensures
            match colored_piece_text(s@.subrange(lo as int, hi as int)) {
                Some(p) => r == Ok::<ColoredPiece, TypeParseError>(p),
                None => r matches Err(TypeParseError::StrError(n)) && n@ == "ColoredPiece"@,
            },
    {
        let c = single_char(s, lo, hi);
        proof {
            if let Some(d) = c {
                lemma_single_ne(d, 'w');
                lemma_single_ne(d, 'b');
                lemma_single_ne(d, 'p');
                lemma_single_ne(d, 'P');
                lemma_single_ne(d, '-');
                lemma_single_ne('w', 'b');
                lemma_single_ne('p', 'P');
                lemma_single_ne('p', '-');
                lemma_single_ne('P', '-');
            }
        }
        match c {
            Some('P') => Ok(ColoredPiece::WhitePawn),
            Some('p') => Ok(ColoredPiece::BlackPawn),
            Some('-') => Ok(ColoredPiece::Tile),
            _ => Err(TypeParseError::StrError("ColoredPiece".to_owned())),
        }
    }

    /// The name of the ColoredPiece.
    pub fn to_string(self) -> (r: String)
        ensures
            r@ == (match self {
                ColoredPiece::WhitePawn => seq!['P'],
                ColoredPiece::BlackPawn => seq!['p'],
                ColoredPiece::Tile => seq!['-'],
            }),
    {
        match self {
            ColoredPiece::WhitePawn => char_string('P'),
            ColoredPiece::BlackPawn => char_string('p'),
            ColoredPiece::Tile => char_string('-'),
        }
    }
}

impl core::str::FromStr for Color {
    type Err = TypeParseError;

    fn from_str(s: &str) -> (r: Result<Color, TypeParseError>)
        ensures
            match color_text(s@) {
                Some(c) => r == Ok::<Color, TypeParseError>(c),
                None => r matches Err(TypeParseError::StrError(n)) && n@ == "Color"@,
            },
    {
        let chars = chars_of(s);
        proof {
            assert(chars@.subrange(0, chars@.len() as int) =~= s@);
        }
        Color::parse(chars.as_slice(), 0, chars.len())
    }
}

impl core::str::FromStr for Piece {
    type Err = TypeParseError;

    fn from_str(s: &str) -> (r: Result<Piece, TypeParseError>)
        ensures
            match piece_text(s@) {
                Some(p) => r == Ok::<Piece, TypeParseError>(p),
                None => r matches Err(TypeParseError::StrError(n)) && n@ == "Piece"@,
            },
    {
        let chars = chars_of(s);
        proof {
            assert(chars@.subrange(0, chars@.len() as int) =~= s@);
        }
        Piece::parse(chars.as_slice(), 0, chars.len())
    }
}

impl core::str::FromStr for ColoredPiece {
    type Err = TypeParseError;

    fn from_str(s: &str) -> (r: Result<ColoredPiece, TypeParseError>)
        ensures
            match colored_piece_text(s@) {
                Some(p) => r == Ok::<ColoredPiece, TypeParseError>(p),
                None => r matches Err(TypeParseError::StrError(n)) && n@ == "ColoredPiece"@,
            },
    {
        let chars = chars_of(s);
        proof {
            assert(chars@.subrange(0, chars@.len() as int) =~= s@);
        }
        ColoredPiece::parse(chars.as_slice(), 0, chars.len())
    }
}

impl RepresentableType for Color {
    const N: usize = 2;

    open spec fn count() -> nat {
        2
    }

    proof fn lemma_count() {
    }

    open spec fn index(self) -> nat {
        self as nat
    }

    fn from_number(number: u8) -> (r: Color) {
        match number {
            0 => Color::White,
            _ => Color::Black,
        }
    }

    fn try_from_number(number: u8) -> (r: Result<Color, TypeParseError>) {
        if number < 2 {
            Ok(Color::from_number(number))
        } else {
            Err(TypeParseError::RangeError("Color".to_owned()))
        }
    }

    fn number(self) -> (r: u8) {
        self as u8
    }
}

impl RepresentableType for Piece {
    const N: usize = 2;

    open spec fn count() -> nat {
        2
    }

    proof fn lemma_count() {
    }

    open spec fn index(self) -> nat {
        self as nat
    }

    fn from_number(number: u8) -> (r: Piece) {
        match number {
            0 => Piece::Pawn,
            _ => Piece::Tile,
        }
    }

    fn try_from_number(number: u8) -> (r: Result<Piece, TypeParseError>) {
        if number < 2 {
            Ok(Piece::from_number(number))
        } else {
            Err(TypeParseError::RangeError("Piece".to_owned()))
        }
    }

    fn number(self) -> (r: u8) {
        self as u8
    }
}

impl RepresentableType for ColoredPiece {
    const N: usize = 3;

    open spec fn count() -> nat {
        3
    }

    proof fn lemma_count() {
    }

    open spec fn index(self) -> nat {
        self as nat
    }

    fn from_number(number: u8) -> (r: ColoredPiece) {
        match number {
            0 => ColoredPiece::WhitePawn,
            1 => ColoredPiece::BlackPawn,
            _ => ColoredPiece::Tile,
        }
    }

    fn try_from_number(number: u8) -> (r: Result<ColoredPiece, TypeParseError>) {
        if number < 3 {
            Ok(ColoredPiece::from_number(number))
        } else {
            Err(TypeParseError::RangeError("ColoredPiece".to_owned()))
        }
    }

    fn number(self) -> (r: u8) {
        self as u8
    }
}

impl ColorType for Color {
    fn first() -> (r: Color) {
        Color::White
    }
}

impl ColoredPieceType for ColoredPiece {
    type Piece = Piece;
    type Color = Color;

    open spec fn has_color(self) -> bool {
        self != ColoredPiece::Tile
    }

    open spec fn piece_of(self) -> Piece {
        if self == ColoredPiece::Tile {
            Piece::Tile
        } else {
            Piece::Pawn
        }
    }

    open spec fn color_of(self) -> Color {
        if self == ColoredPiece::WhitePawn {
            Color::White
        } else {
            Color::Black
        }
    }

    fn new(piece: Piece, color: Color) -> (r: ColoredPiece) {
        ColoredPiece::new(piece, color)
    }

    fn piece(self) -> (r: Piece) {
        ColoredPiece::piece(self)
    }

    fn color(self) -> (r: Color) {
        ColoredPiece::color(self)
    }
}

} // verus!
