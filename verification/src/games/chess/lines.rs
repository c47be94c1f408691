//! Chess geometry: Directions, the lines of the board, and the Squares
//! between two Squares.
use vstd::prelude::*;
use vstd::std_specs::ops::{AddSpecImpl, NegSpecImpl, SubSpecImpl};
use crate::bits::below;
use crate::interface::bitboard::{east_set, north_set, south_set, west_set};
use super::board::{BitBoard, Square};
use super::piece::Color;

verus! {

/// A step on the board, by the change of Square index it makes.
#[derive(Copy, Clone, PartialEq, Eq, Debug, Hash, Structural)]
pub enum Direction {
    North,
    South,
    NorthNorth,
    SouthSouth,
    East,
    West,
    NorthEast,
    NorthWest,
    SouthEast,
    SouthWest,
}

/// The Direction that changes a Square index by `o`.
pub open spec fn direction_of(o: int) -> Option<Direction> {
    if o == 8 {
        Some(Direction::North)
    } else if o == -8 {
        Some(Direction::South)
    } else if o == 16 {
        Some(Direction::NorthNorth)
    } else if o == -16 {
        Some(Direction::SouthSouth)
    } else if o == 1 {
        Some(Direction::East)
    } else if o == -1 {
        Some(Direction::West)
    } else if o == 9 {
        Some(Direction::NorthEast)
    } else if o == 7 {
        Some(Direction::NorthWest)
    } else if o == -7 {
        Some(Direction::SouthEast)
    } else if o == -9 {
        Some(Direction::SouthWest)
    } else {
        None
    }
}

impl Direction {
    /// The change of Square index the Direction makes.
    pub open spec fn delta(self) -> int {
        match self {
            Direction::North => 8,
            Direction::South => -8,
            Direction::NorthNorth => 16,
            Direction::SouthSouth => -16,
            Direction::East => 1,
            Direction::West => -1,
            Direction::NorthEast => 9,
            Direction::NorthWest => 7,
            Direction::SouthEast => -7,
            Direction::SouthWest => -9,
        }
    }

    /// The change of Square index the Direction makes.
    pub fn offset(self) -> (r: i8)
        ensures
            r == self.delta(),
    {
        match self {
            Direction::North => 8,
            Direction::South => -8,
            Direction::NorthNorth => 16,
            Direction::SouthSouth => -16,
            Direction::East => 1,
            Direction::West => -1,
            Direction::NorthEast => 9,
            Direction::NorthWest => 7,
            Direction::SouthEast => -7,
            Direction::SouthWest => -9,
        }
    }

    /// The Direction that changes a Square index by `o`.
    pub fn from_offset(o: i8) -> (r: Direction)
        requires
            direction_of(o as int) is Some,
        ensures
            direction_of(o as int) == Some(r),
            r.delta() == o,
    {
        if o == 8 {
            Direction::North
        } else if o == -8 {
            Direction::South
        } else if o == 16 {
            Direction::NorthNorth
        } else if o == -16 {
            Direction::SouthSouth
        } else if o == 1 {
            Direction::East
        } else if o == -1 {
            Direction::West
        } else if o == 9 {
            Direction::NorthEast
        } else if o == 7 {
            Direction::NorthWest
        } else if o == -7 {
            Direction::SouthEast
        } else {
            Direction::SouthWest
        }
    }

    /// The Direction in which the pawns of the given Color advance.
    pub fn up(stm: Color) -> (r: Direction)
        ensures
            r == (match stm {
                Color::White => Direction::North,
                Color::Black => Direction::South,
            }),
    {
        match stm {
            Color::White => Direction::North,
            Color::Black => Direction::South,
        }
    }
}

impl core::ops::Add for Direction {
    type Output = Direction;

    /// The Direction of the two steps together, which must be a Direction.
    fn add(self, rhs: Direction) -> (r: Direction) {
        Direction::from_offset(self.offset() + rhs.offset())
    }
}

impl AddSpecImpl for Direction {
    open spec fn obeys_add_spec() -> bool {
        true
    }

    open spec fn add_req(self, rhs: Direction) -> bool {
        direction_of(self.delta() + rhs.delta()) is Some
    }

    open spec fn add_spec(self, rhs: Direction) -> Direction {
        direction_of(self.delta() + rhs.delta())->0
    }
}

impl core::ops::Sub for Direction {
    type Output = Direction;

    /// The Direction of the first step less the second, which must be a
    /// Direction.
    fn sub(self, rhs: Direction) -> (r: Direction) {
        Direction::from_offset(self.offset() - rhs.offset())
    }
}

impl SubSpecImpl for Direction {
    open spec fn obeys_sub_spec() -> bool {
        true
    }

    open spec fn sub_req(self, rhs: Direction) -> bool {
        direction_of(self.delta() - rhs.delta()) is Some
    }

    open spec fn sub_spec(self, rhs: Direction) -> Direction {
        direction_of(self.delta() - rhs.delta())->0
    }
}

impl core::ops::Neg for Direction {
    type Output = Direction;

    /// The opposite Direction.
    fn neg(self) -> (r: Direction) {
        Direction::from_offset(-self.offset())
    }
}

impl NegSpecImpl for Direction {
    open spec fn obeys_neg_spec() -> bool {
        true
    }

    open spec fn neg_req(self) -> bool {
        true
    }

    open spec fn neg_spec(self) -> Direction {
        direction_of(-self.delta())->0
    }
}

/// The diagonal (a1-h8 way) of a Square index: `7 + rank - file`.
pub open spec fn diagonal_of(i: int) -> int {
    7 + i / 8 - i % 8
}

/// The anti-diagonal (h1-a8 way) of a Square index: `rank + file`.
pub open spec fn anti_diagonal_of(i: int) -> int {
    i / 8 + i % 8
}

/// The Squares of the given diagonal.
pub open spec fn diagonal_set(d: int) -> Set<int> {
    Set::new(|i: int| 0 <= i < 64 && diagonal_of(i) == d)
}

/// The Squares of the given anti-diagonal.
pub open spec fn anti_diagonal_set(d: int) -> Set<int> {
    Set::new(|i: int| 0 <= i < 64 && anti_diagonal_of(i) == d)
}

/// `x` lies strictly between `a` and `b`.
pub open spec fn inside(a: int, b: int, x: int) -> bool {
    (a < x < b) || (b < x < a)
}

/// The Square `c` lies strictly between the Squares `a` and `b`, which
/// share a File, a Rank, a diagonal or an anti-diagonal.
pub open spec fn strictly_between(a: int, b: int, c: int) -> bool {
    let (fa, ra, fb, rb, fc, rc) = (a % 8, a / 8, b % 8, b / 8, c % 8, c / 8);
    ||| fa == fb && fc == fa && inside(ra, rb, rc)
    ||| ra == rb && rc == ra && inside(fa, fb, fc)
    ||| diagonal_of(a) == diagonal_of(b) && diagonal_of(c) == diagonal_of(a) && inside(fa, fb, fc)
    ||| anti_diagonal_of(a) == anti_diagonal_of(b) && anti_diagonal_of(c) == anti_diagonal_of(a)
        && inside(fa, fb, fc)
}

/// The Squares strictly between two Squares on a common line; none when
/// they share no line.
pub open spec fn between_set(a: int, b: int) -> Set<int> {
    Set::new(|c: int| 0 <= c < 64 && strictly_between(a, b, c))
}

/// The set moved one step in the given Direction, dropping the Squares that
/// leave the board.
pub open spec fn shift_set(s: Set<int>, dir: Direction) -> Set<int> {
    match dir {
        Direction::North => north_set(s, 8, 64),
        Direction::South => south_set(s, 8),
        Direction::NorthNorth => north_set(north_set(s, 8, 64), 8, 64),
        Direction::SouthSouth => south_set(south_set(s, 8), 8),
        Direction::East => east_set(s, 8, 64),
        Direction::West => west_set(s, 8, 64),
        Direction::NorthEast => east_set(north_set(s, 8, 64), 8, 64),
        Direction::NorthWest => west_set(north_set(s, 8, 64), 8, 64),
        Direction::SouthEast => east_set(south_set(s, 8), 8, 64),
        Direction::SouthWest => west_set(south_set(s, 8), 8, 64),
    }
}

impl Square {
    /// The Square one step towards the opponent of the given Color, if any.
    pub fn up(self, stm: Color) -> (r: Option<Square>)
        ensures
            stm == Color::White ==> ((self as int) / 8 == 7 <==> r is None),
            stm == Color::Black ==> ((self as int) / 8 == 0 <==> r is None),
            r matches Some(s) ==> s as int == self as int + (if stm == Color::White {
                8int
            } else {
                -8int
            }),
    {
        match stm {
            Color::White => self.north(),
            Color::Black => self.south(),
        }
    }

    /// The Square one step towards the given Color, if any.
    pub fn down(self, stm: Color) -> (r: Option<Square>)
        ensures
            stm == Color::Black ==> ((self as int) / 8 == 7 <==> r is None),
            stm == Color::White ==> ((self as int) / 8 == 0 <==> r is None),
            r matches Some(s) ==> s as int == self as int + (if stm == Color::White {
                -8int
            } else {
                8int
            }),
    {
        match stm {
            Color::White => self.south(),
            Color::Black => self.north(),
        }
    }

    /// The Square one step away in the given Direction, which must be on the
    /// board.
    pub fn shift(self, dir: Direction) -> (r: Square)
        requires
            0 <= self as int + dir.delta() < 64,
        ensures
            r as int == self as int + dir.delta(),
    {
        Square::from_index((self as i8 + dir.offset()) as u8)
    }

    /// The diagonal of the Square: `7 + rank - file`.
    pub fn diagonal(self) -> (r: usize)
        ensures
            r == diagonal_of(self as int),
    {
        7 + (self as usize) / 8 - (self as usize) % 8
    }

    /// The anti-diagonal of the Square: `rank + file`.
    pub fn anti_diagonal(self) -> (r: usize)
        ensures
            r == anti_diagonal_of(self as int),
    {
        (self as usize) / 8 + (self as usize) % 8
    }
}

/// Whether the Square `c` lies strictly between `a` and `b` on a common
/// line.
fn is_between(a: u8, b: u8, c: u8) -> (r: bool)
    requires
        a < 64,
        b < 64,
        c < 64,
    ensures
        r == strictly_between(a as int, b as int, c as int),
{
    let (fa, ra, fb, rb, fc, rc) = (a % 8, a / 8, b % 8, b / 8, c % 8, c / 8);
    let inside_r = (ra < rc && rc < rb) || (rb < rc && rc < ra);
    let inside_f = (fa < fc && fc < fb) || (fb < fc && fc < fa);
    (fa == fb && fc == fa && inside_r) || (ra == rb && rc == ra && inside_f) || (7 + ra - fa == 7 + rb
        - fb && 7 + rc - fc == 7 + ra - fa && inside_f) || (ra + fa == rb + fb && rc + fc == ra + fa
        && inside_f)
}

impl BitBoard {
    /// The BitBoard moved one step in the given Direction, dropping the
    /// Squares that leave the board.
    pub fn shift(&self, dir: Direction) -> (r: BitBoard)
        ensures
            r@ == shift_set(self@, dir),
    {
        match dir {
            Direction::North => self.north(),
            Direction::South => self.south(),
            Direction::NorthNorth => self.north().north(),
            Direction::SouthSouth => self.south().south(),
            Direction::East => self.east(),
            Direction::West => self.west(),
            Direction::NorthEast => self.north().east(),
            Direction::NorthWest => self.north().west(),
            Direction::SouthEast => self.south().east(),
            Direction::SouthWest => self.south().west(),
        }
    }

    /// The Squares of the given diagonal, numbered `7 + rank - file`.
    pub fn diagonal(diagonal: usize) -> (r: BitBoard)
        requires
            diagonal < 15,
        ensures
            r@ == diagonal_set(diagonal as int),
    {
        let mut r = BitBoard::empty();
        let mut i: u8 = 0;
        while i < 64
            invariant
                i <= 64,
                diagonal < 15,
                r@ == diagonal_set(diagonal as int).intersect(below(i as int)),
            decreases 64 - i,
        {
            if 7 + (i as usize) / 8 - (i as usize) % 8 == diagonal {
                r = r.with(Square::from_index(i));
            }
            i = i + 1;
            proof {
                assert(r@ =~= diagonal_set(diagonal as int).intersect(below(i as int)));
            }
        }
        assert(r@ =~= diagonal_set(diagonal as int));
        r
    }

    /// The Squares of the given anti-diagonal, numbered `rank + file`.
    pub fn anti_diagonal(anti_diagonal: usize) -> (r: BitBoard)
        requires
            anti_diagonal < 15,
        ensures
            r@ == anti_diagonal_set(anti_diagonal as int),
    {
        let mut r = BitBoard::empty();
        let mut i: u8 = 0;
        while i < 64
            invariant
                i <= 64,
                anti_diagonal < 15,
                r@ == anti_diagonal_set(anti_diagonal as int).intersect(below(i as int)),
            decreases 64 - i,
        {
            if (i as usize) / 8 + (i as usize) % 8 == anti_diagonal {
                r = r.with(Square::from_index(i));
            }
            i = i + 1;
            proof {
                assert(r@ =~= anti_diagonal_set(anti_diagonal as int).intersect(below(i as int)));
            }
        }
        assert(r@ =~= anti_diagonal_set(anti_diagonal as int));
        r
    }

    /// The Squares strictly between the two Squares when they share a File,
    /// a Rank, a diagonal or an anti-diagonal; empty otherwise.
    pub fn between(sq_1: Square, sq_2: Square) -> (r: BitBoard)
        ensures
            r@ == between_set(sq_1 as int, sq_2 as int),
    {
        let mut r = BitBoard::empty();
        let mut i: u8 = 0;
        while i < 64
            invariant
                i <= 64,
                r@ == between_set(sq_1 as int, sq_2 as int).intersect(below(i as int)),
            decreases 64 - i,
        {
            if is_between(sq_1 as u8, sq_2 as u8, i) {
                r = r.with(Square::from_index(i));
            }
            i = i + 1;
            proof {
                assert(r@ =~= between_set(sq_1 as int, sq_2 as int).intersect(below(i as int)));
            }
        }
        assert(r@ =~= between_set(sq_1 as int, sq_2 as int));
        r
    }

    /// The Squares strictly between the two Squares, and the second one.
    pub fn between2(sq_1: Square, sq_2: Square) -> (r: BitBoard)
        ensures
            r@ == between_set(sq_1 as int, sq_2 as int).insert(sq_2 as int),
    {
        BitBoard::between(sq_1, sq_2).with(sq_2)
    }
}

} // verus!
