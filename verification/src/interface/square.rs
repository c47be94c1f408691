//! The interface of the Squares of the games' boards.
use vstd::prelude::*;
use super::RepresentableType;

verus! {

/// SquareType is the trait implemented by the type for Squares in a game's
/// board representation: a Square's index is `rank * File::N + file`.
pub trait SquareType: RepresentableType {
    /// The type for the File of the Square.
    type File: RepresentableType;
    /// The type for the Rank of the Square.
    type Rank: RepresentableType;

    /// Creates a new Square from the given File and Rank.
    fn new(file: Self::File, rank: Self::Rank) -> (r: Self)
        ensures
            r.index() == rank.index() * (<Self::File as RepresentableType>::count() as nat) + file.index(),
    ;

    /// Returns the File of self.
    fn file(self) -> (r: Self::File)
        ensures
            r.index() == self.index() % (<Self::File as RepresentableType>::count() as nat),
    ;

    /// Returns the Rank of self.
    fn rank(self) -> (r: Self::Rank)
        ensures
            r.index() == self.index() / (<Self::File as RepresentableType>::count() as nat),
    ;

    /// Returns the Square to the north of self, if there is one.
    fn north(self) -> (r: Option<Self>)
        ensures
            match r {
                Some(s) => s.index() == self.index() + <Self::File as RepresentableType>::count(),
                None => self.index() / (<Self::File as RepresentableType>::count() as nat)
                    == <Self::Rank as RepresentableType>::count() - 1,
            },
    ;

    /// Returns the Square to the south of self, if there is one.
    fn south(self) -> (r: Option<Self>)
        ensures
            match r {
                Some(s) => s.index() == self.index() - <Self::File as RepresentableType>::count(),
                None => self.index() / (<Self::File as RepresentableType>::count() as nat) == 0,
            },
    ;

    /// Returns the Square to the east of self, if there is one.
    fn east(self) -> (r: Option<Self>)
        ensures
            match r {
                Some(s) => s.index() == self.index() + 1,
                None => self.index() % (<Self::File as RepresentableType>::count() as nat)
                    == <Self::File as RepresentableType>::count() - 1,
            },
    ;

    /// Returns the Square to the west of self, if there is one.
    fn west(self) -> (r: Option<Self>)
        ensures
            match r {
                Some(s) => s.index() == self.index() - 1,
                None => self.index() % (<Self::File as RepresentableType>::count() as nat) == 0,
            },
    ;
}

} // verus!
