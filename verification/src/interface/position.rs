//! The common interface of the board representations of the games.
use vstd::prelude::*;

use super::{ColoredPieceType, ColorType, MoveStore, MoveType, SquareType};

verus! {

/// A generalized interface for the board representations of a wide range of
/// games, for game-agnostic software. Each game states what its Moves,
/// outcomes and successor positions are through the spec functions below.
pub trait PositionType: Sized {
    /// Type for one move in this board representation.
    type Move: MoveType;
    /// Type for the sides of the game.
    type Color: ColorType;

    /// FEN string for the standard starting position of the game.
    const STARTPOS: &'static str;

    /// The Moves of the position, in the order of their generation.
    spec fn generated(&self) -> Seq<Self::Move>;

    /// The position's Moves can be generated, and its end asked about.
    spec fn generable(&self) -> bool;

    /// The game is over in the position.
    spec fn over(&self) -> bool;

    /// The winner of the game in the position may be asked for.
    spec fn outcome_known(&self) -> bool;

    /// The side which has won in the position, `Some(None)` for a draw.
    spec fn outcome(&self) -> Option<Option<Self::Color>>;

    /// The Move may be played on the position.
    spec fn playable_move(&self, m: Self::Move) -> bool;

    /// `next` is the position reached by playing `m` on this one.
    spec fn plays_to(&self, m: Self::Move, next: Self) -> bool;

    /// The number of half-moves played.
    spec fn plies(&self) -> nat;

    /// The semi-unique checksum of the position.
    spec fn checksum_of(&self) -> crate::interface::hash::Hash;

    /// Returns the number of half-moves played.
    fn ply_count(&self) -> (r: usize)
        ensures
            r == self.plies(),
    ;

    /// Returns a semi-unique checksum of the current Position.
    fn hash(&self) -> (r: crate::interface::hash::Hash)
        ensures
            r == self.checksum_of(),
    ;

    /// Returns the side which has won in the current position, if any.
    fn winner(&self) -> (r: Option<Option<Self::Color>>)
        requires
            self.outcome_known(),
        ensures
            r == self.outcome(),
    ;

    /// Returns `true` if the game is over in the current position.
    fn is_game_over(&self) -> (r: bool)
        requires
            self.generable(),
        ensures
            r == self.over(),
    ;

    /// Returns the position which is reached after playing the given move on
    /// the current position; `UPDATE_PERIPHERALS` toggles the non-essential
    /// updates, like the one of the hash.
    fn after_move<const UPDATE_PERIPHERALS: bool>(&self, m: Self::Move) -> (r: Self)
        requires
            self.playable_move(m),
        ensures
            self.plays_to(m, r),
    ;

    /// Generates all the Moves of the current position and adds them to the
    /// given storage.
    ///
    /// The `ALLOW_ILLEGAL` flag asks for pseudo-legal Moves where it is set,
    /// for legal ones where it is not; the `QUIET` and `NOISY` flags ask for
    /// the reversible and the irreversible Moves. The games of this library
    /// generate the same Moves whatever the flags.
    fn generate_moves_into<
        const ALLOW_ILLEGAL: bool,
        const QUIET: bool,
        const NOISY: bool,
        T: MoveStore<Self::Move>,
    >(&self, movelist: &mut T)
        requires
            self.generable(),
            old(movelist).room() >= self.generated().len(),
        ensures
            final(movelist).moves() == old(movelist).moves() + self.generated(),
    ;

    /// Generates all the Moves of the current position into a new list, with
    /// the flags of [`PositionType::generate_moves_into`].
    fn generate_moves<const ALLOW_ILLEGAL: bool, const QUIET: bool, const NOISY: bool>(&self) -> (r: Vec<
        Self::Move,
    >)
        requires
            self.generable(),
        ensures
            r@ == self.generated(),
    ;

    /// Returns the number of legal Moves of the current position, with the
    /// `QUIET` and `NOISY` flags of [`PositionType::generate_moves_into`].
    fn count_moves<const QUIET: bool, const NOISY: bool>(&self) -> (r: usize)
        requires
            self.generable(),
        ensures
            r == self.generated().len(),
    ;
}

/// The positions that a FEN string's piece placement can fill: each Square
/// holds at most one piece that `at` finds.
pub trait FENParsablePosition: PositionType {
    /// Type for the squares in the board representation.
    type Square: SquareType;
    /// Type for the pieces (with color) used by this board representation.
    type ColoredPiece: ColoredPieceType;

    /// The piece found on the Square.
    spec fn piece_at(&self, sq: Self::Square) -> Option<Self::ColoredPiece>;

    /// Adds the given piece to the given Square, which should be empty.
    fn insert(&mut self, sq: Self::Square, piece: Self::ColoredPiece);

    /// Removes the piece found on the given Square, and returns it; for games
    /// where a Square may hold several pieces, only the topmost one.
    fn remove(&mut self, sq: Self::Square) -> (r: Option<Self::ColoredPiece>)
        ensures
            r == old(self).piece_at(sq),
    ;

    /// Returns the piece found on the given Square.
    fn at(&self, sq: Self::Square) -> (r: Option<Self::ColoredPiece>)
        ensures
            r == self.piece_at(sq),
    ;
}

} // verus!
