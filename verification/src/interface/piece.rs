//! The interface of the Colors of the games.
use vstd::prelude::*;
use super::RepresentableType;

verus! {

/// The ColoredPieceType trait is implemented by the piece representation
/// (with Color) of a game: a ColoredPiece has a Piece, and a Color unless
/// the piece belongs to no side.
pub trait ColoredPieceType: RepresentableType {
    /// The type for the Piece of the ColoredPiece.
    type Piece: RepresentableType;
    /// The type for the Color of the ColoredPiece.
    type Color: ColorType;

    /// The ColoredPiece has a Color.
    spec fn has_color(self) -> bool;

    /// The Piece of the ColoredPiece.
    spec fn piece_of(self) -> Self::Piece;

    /// The Color of the ColoredPiece, when it has one.
    spec fn color_of(self) -> Self::Color;

    /// Creates the ColoredPiece of the given Piece and Color: it has that
    /// Piece, and that Color when it has a Color at all.
    fn new(piece: Self::Piece, color: Self::Color) -> (r: Self)
        ensures
            r.piece_of() == piece,
            r.has_color() ==> r.color_of() == color,
    ;

    /// Returns the Piece of the given ColoredPiece.
    fn piece(self) -> (r: Self::Piece)
        ensures
            r == self.piece_of(),
    ;

    /// Returns the Color of the given ColoredPiece, which must have one.
    fn color(self) -> (r: Self::Color)
        requires
            self.has_color(),
        ensures
            r == self.color_of(),
    ;
}

/// A type representing the Colors of a game's sides.
pub trait ColorType: RepresentableType {
    /// The Color of the first index.
    fn first() -> (r: Self)
        ensures
            r.index() == 0,
    ;
}

} // verus!
