//! The Squares each kind of chess piece attacks from a Square.
use vstd::prelude::*;
use crate::bits::below;
use super::board::{BitBoard, Square};
use super::lines::{anti_diagonal_of, between_set, diagonal_of};
use super::piece::Color;

verus! {

/// The distance between two numbers.
pub open spec fn gap(a: int, b: int) -> int {
    if a > b {
        a - b
    } else {
        b - a
    }
}

/// The Squares a king attacks from `sq`: those next to it.
pub open spec fn king_set(sq: int) -> Set<int> {
    Set::new(|i: int| 0 <= i < 64 && i != sq && gap(i % 8, sq % 8) <= 1 && gap(i / 8, sq / 8) <= 1)
}

/// The Squares a knight attacks from `sq`: one File and two Ranks away, or
/// two Files and one Rank.
pub open spec fn knight_set(sq: int) -> Set<int> {
    Set::new(
        |i: int|
            0 <= i < 64 && ((gap(i % 8, sq % 8) == 1 && gap(i / 8, sq / 8) == 2) || (gap(i % 8, sq % 8)
                == 2 && gap(i / 8, sq / 8) == 1)),
    )
}

/// The Squares a pawn of the given Color attacks from `sq`: the neighbouring
/// Files one Rank forward.
pub open spec fn pawn_attack_set(sq: int, color: Color) -> Set<int> {
    Set::new(
        |i: int|
            0 <= i < 64 && gap(i % 8, sq % 8) == 1 && i / 8 == sq / 8 + (if color == Color::White {
                1int
            } else {
                -1int
            }),
    )
}

/// The Squares `sq` and `i` share a File or a Rank (`diag` unset), or a
/// diagonal or an anti-diagonal (`diag` set).
pub open spec fn aligned(sq: int, i: int, diag: bool) -> bool {
    if diag {
        diagonal_of(sq) == diagonal_of(i) || anti_diagonal_of(sq) == anti_diagonal_of(i)
    } else {
        sq % 8 == i % 8 || sq / 8 == i / 8
    }
}

/// The Squares a rook (`diag` unset) or a bishop (`diag` set) on `sq`
/// attacks when `blockers` are occupied: those along its lines up to and
/// including the first occupied Square each way.
pub open spec fn slide_set(sq: int, blockers: Set<int>, diag: bool) -> Set<int> {
    Set::new(
        |i: int|
            0 <= i < 64 && i != sq && aligned(sq, i, diag) && between_set(sq, i).disjoint(blockers),
    )
}

/// Whether a king on `sq` attacks `i`.
fn king_reaches(sq: u8, i: u8) -> (r: bool)
    requires
        sq < 64,
        i < 64,
    ensures
        r == king_set(sq as int).contains(i as int),
{
    let (fa, ra, fb, rb) = (sq % 8, sq / 8, i % 8, i / 8);
    let df = if fa > fb {
        fa - fb
    } else {
        fb - fa
    };
    let dr = if ra > rb {
        ra - rb
    } else {
        rb - ra
    };
    i != sq && df <= 1 && dr <= 1
}

/// Whether a knight on `sq` attacks `i`.
fn knight_reaches(sq: u8, i: u8) -> (r: bool)
    requires
        sq < 64,
        i < 64,
    ensures
        r == knight_set(sq as int).contains(i as int),
{
    let (fa, ra, fb, rb) = (sq % 8, sq / 8, i % 8, i / 8);
    let df = if fa > fb {
        fa - fb
    } else {
        fb - fa
    };
    let dr = if ra > rb {
        ra - rb
    } else {
        rb - ra
    };
    (df == 1 && dr == 2) || (df == 2 && dr == 1)
}

/// Whether a pawn of the given Color on `sq` attacks `i`.
fn pawn_reaches(sq: u8, i: u8, color: Color) -> (r: bool)
    requires
        sq < 64,
        i < 64,
    ensures
        r == pawn_attack_set(sq as int, color).contains(i as int),
{
    let (fa, ra, fb, rb) = (sq % 8, sq / 8, i % 8, i / 8);
    let df = if fa > fb {
        fa - fb
    } else {
        fb - fa
    };
    df == 1 && match color {
        Color::White => rb == ra + 1,
        Color::Black => ra == rb + 1,
    }
}

/// The Squares a king attacks from the given Square.
pub fn king(square: Square) -> (r: BitBoard)
    ensures
        r@ == king_set(square as int),
{
    let mut r = BitBoard::empty();
    let mut i: u8 = 0;
    while i < 64
        invariant
            i <= 64,
            r@ == king_set(square as int).intersect(below(i as int)),
        decreases 64 - i,
    {
        if king_reaches(square as u8, i) {
            r = r.with(Square::from_index(i));
        }
        i = i + 1;
        proof {
            assert(r@ =~= king_set(square as int).intersect(below(i as int)));
        }
    }
    assert(r@ =~= king_set(square as int));
    r
}

/// The Squares a knight attacks from the given Square.
pub fn knight(square: Square) -> (r: BitBoard)
    ensures
        r@ == knight_set(square as int),
{
    let mut r = BitBoard::empty();
    let mut i: u8 = 0;
    while i < 64
        invariant
            i <= 64,
            r@ == knight_set(square as int).intersect(below(i as int)),
        decreases 64 - i,
    {
        if knight_reaches(square as u8, i) {
            r = r.with(Square::from_index(i));
        }
        i = i + 1;
        proof {
            assert(r@ =~= knight_set(square as int).intersect(below(i as int)));
        }
    }
    assert(r@ =~= knight_set(square as int));
    r
}

/// The Squares a pawn of the given Color attacks from the given Square.
pub fn pawn_attacks(square: Square, color: Color) -> (r: BitBoard)
    ensures
        r@ == pawn_attack_set(square as int, color),
{
    let mut r = BitBoard::empty();
    let mut i: u8 = 0;
    while i < 64
        invariant
            i <= 64,
            r@ == pawn_attack_set(square as int, color).intersect(below(i as int)),
        decreases 64 - i,
    {
        if pawn_reaches(square as u8, i, color) {
            r = r.with(Square::from_index(i));
        }
        i = i + 1;
        proof {
            assert(r@ =~= pawn_attack_set(square as int, color).intersect(below(i as int)));
        }
    }
    assert(r@ =~= pawn_attack_set(square as int, color));
    r
}

/// Whether `sq` and `i` share a line of the given kind.
fn is_aligned(sq: u8, i: u8, diag: bool) -> (r: bool)
    requires
        sq < 64,
        i < 64,
    ensures
        r == aligned(sq as int, i as int, diag),
{
    if diag {
        7 + sq / 8 - sq % 8 == 7 + i / 8 - i % 8 || sq / 8 + sq % 8 == i / 8 + i % 8
    } else {
        sq % 8 == i % 8 || sq / 8 == i / 8
    }
}

/// The Squares a sliding piece attacks along lines of the given kind.
fn slide(square: Square, blockers: BitBoard, diag: bool) -> (r: BitBoard)
    ensures
        r@ == slide_set(square as int, blockers@, diag),
{
    let mut r = BitBoard::empty();
    let mut i: u8 = 0;
    while i < 64
        invariant
            i <= 64,
            r@ == slide_set(square as int, blockers@, diag).intersect(below(i as int)),
        decreases 64 - i,
    {
        let target = Square::from_index(i);
        if i != square as u8 && is_aligned(square as u8, i, diag) && BitBoard::between(
            square,
            target,
        ).is_disjoint(blockers) {
            r = r.with(target);
        }
        i = i + 1;
        proof {
            assert(r@ =~= slide_set(square as int, blockers@, diag).intersect(below(i as int)));
        }
    }
    assert(r@ =~= slide_set(square as int, blockers@, diag));
    r
}

/// The Squares a bishop attacks from the given Square when `blockers` are
/// occupied.
pub fn bishop(square: Square, blockers: BitBoard) -> (r: BitBoard)
    ensures
        r@ == slide_set(square as int, blockers@, true),
{
    slide(square, blockers, true)
}

/// The Squares a rook attacks from the given Square when `blockers` are
/// occupied.
pub fn rook(square: Square, blockers: BitBoard) -> (r: BitBoard)
    ensures
        r@ == slide_set(square as int, blockers@, false),
{
    slide(square, blockers, false)
}

/// The Squares a queen attacks from the given Square when `blockers` are
/// occupied.
pub fn queen(square: Square, blockers: BitBoard) -> (r: BitBoard)
    ensures
        r@ == slide_set(square as int, blockers@, true).union(slide_set(square as int, blockers@, false)),
{
    bishop(square, blockers).union(rook(square, blockers))
}

} // verus!
