//! The game-independent parts of the library: the bit-set model of boards,
//! hashes, errors and the traits that every game implements.
pub mod art;
pub mod bitboard;
pub mod hash;
pub mod movelist;
pub mod parse;
pub mod piece;
pub mod position;
pub mod set;
pub mod square;

pub use bitboard::BitBoardType;
pub use movelist::{MoveList, MoveStore, MoveType};
pub use piece::{ColoredPieceType, ColorType};
pub use position::{FENParsablePosition, PositionType};
pub use set::SetType;
pub use square::SquareType;


use vstd::prelude::*;

verus! {

/// An error met while converting a string or an integer into one of the
/// enumerated board types (Files, Ranks, Squares, Pieces, Colors).
#[derive(Debug, PartialEq, Eq)]
pub enum TypeParseError {
    /// The string does not represent a value of the named type.
    StrError(String),
    /// The integer does not represent a value of the named type.
    RangeError(String),
}

/// RepresentableType is implemented by the enumerated board types (Files,
/// Ranks, Squares, Pieces, Colors), each backed by a small integer: its
/// index among the `N` values of the type.
pub trait RepresentableType: Sized + Copy {
    /// The number of values of the type.
    const N: usize;

    /// The number of values of the type, `N`.
    spec fn count() -> nat;

    /// The index of the value, below `N`.
    spec fn index(self) -> nat;

    /// `N` is the number of values of the type.
    proof fn lemma_count()
        ensures
            Self::N == Self::count(),
    ;

    /// The value of the given index, which must be below `N`.
    fn from_number(number: u8) -> (r: Self)
        requires
            number < Self::count(),
        ensures
            r.index() == number,
    ;

    /// The value of the given index, or a `RangeError` naming the type when
    /// the index is not below `N`.
    fn try_from_number(number: u8) -> (r: Result<Self, TypeParseError>)
        ensures
            number < Self::count() <==> r is Ok,
            r matches Ok(v) ==> v.index() == number,
            r matches Err(e) ==> e is RangeError,
    ;

    /// The index of the value.
    fn number(self) -> (r: u8)
        ensures
            r == self.index(),
            r < Self::count(),
    ;
}

} // verus!
