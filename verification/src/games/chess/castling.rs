//! Chess castling: the four castling rights, the Squares of the kings and
//! rooks that take part, and the reading of the castling field of a FEN
//! string.
use vstd::prelude::*;
use crate::interface::TypeParseError;
use crate::interface::parse::{chars_of, file_text, string_of};
use vstd::string::StringSliceAdditionalSpecFns;
use super::board::{BitBoard, File, Rank, Square};
use super::lines::between_set;
use super::piece::Color;

verus! {

/// Bit `i` of a byte is set.
#[verifier::opaque]
pub open spec fn byte_bit(x: u8, i: int) -> bool {
    0 <= i < 8 && (x >> (i as u8)) & 1u8 == 1u8
}

/// The bits of the byte operators, for every index.
proof fn lemma_byte_ops(x: u8, y: u8)
    by (bit_vector)
    ensures
        forall|i: u8| #![auto] i < 8 ==> ((((x | y) >> i) & 1u8 == 1u8) == (((x >> i) & 1u8 == 1u8) || ((y >> i) & 1u8 == 1u8))),
        forall|i: u8| #![auto] i < 8 ==> ((((x & y) >> i) & 1u8 == 1u8) == (((x >> i) & 1u8 == 1u8) && ((y >> i) & 1u8 == 1u8))),
        forall|i: u8| #![auto] i < 8 ==> ((((x & (!y & 15u8)) >> i) & 1u8 == 1u8) == (((x >> i) & 1u8 == 1u8) && !((y >> i) & 1u8 == 1u8) && i < 4)),
        forall|i: u8, j: u8| #![auto] i < 8 && j < 8 ==> ((((1u8 << j) >> i) & 1u8 == 1u8) == (i == j)),
        forall|i: u8| #![auto] i < 8 ==> (((0u8 >> i) & 1u8) == 0u8),
        x != 0u8 ==> ((x >> 0u8) & 1u8 == 1u8 || (x >> 1u8) & 1u8 == 1u8 || (x >> 2u8) & 1u8 == 1u8
            || (x >> 3u8) & 1u8 == 1u8 || (x >> 4u8) & 1u8 == 1u8 || (x >> 5u8) & 1u8 == 1u8 || (x
            >> 6u8) & 1u8 == 1u8 || (x >> 7u8) & 1u8 == 1u8),
{
}

/// Rights is a set of castling rights, held as the bits of a byte: bit `i`
/// stands for the Dimension with index `i`.
#[derive(Copy, Clone, PartialEq, Eq, Debug, Hash, Structural)]
pub struct Rights(pub u8);

impl View for Rights {
    type V = Set<int>;

    /// The indices of the Dimensions in the set.
    open spec fn view(&self) -> Set<int> {
        Set::new(|i: int| byte_bit(self.0, i))
    }
}

impl Rights {
    /// The empty set.
    pub fn new() -> (r: Rights)
        ensures
            r@ == Set::<int>::empty(),
    {
        proof {
            reveal(byte_bit);
            lemma_byte_ops(0, 0);
            assert(Rights(0)@ =~= Set::<int>::empty());
        }
        Rights(0)
    }

    /// The set with the given Dimension added.
    pub fn with(self, d: Dimension) -> (r: Rights)
        ensures
            r@ == self@.insert(d as int),
    {
        let r = Rights(self.0 | (1u8 << d as u8));
        proof {
            reveal(byte_bit);
            lemma_byte_ops(self.0, 1u8 << d as u8);
            assert(r@ =~= self@.insert(d as int)) by {
                assert forall|i: int| #[trigger] r@.contains(i) == self@.insert(d as int).contains(i) by {
                    if 0 <= i < 8 {
                        let j = i as u8;
                        assert(((r.0 >> j) & 1u8 == 1u8) == (((self.0 >> j) & 1u8 == 1u8) || (((1u8 << d as u8) >> j) & 1u8 == 1u8)));
                    }
                }
            }
        }
        r
    }

    /// The union of the two sets.
    pub fn union(self, other: Rights) -> (r: Rights)
        ensures
            r@ == self@.union(other@),
    {
        let r = Rights(self.0 | other.0);
        proof {
            reveal(byte_bit);
            lemma_byte_ops(self.0, other.0);
            assert forall|i: int| #[trigger] r@.contains(i) == self@.union(other@).contains(i) by {
                if 0 <= i < 8 {
                    let j = i as u8;
                    assert(((r.0 >> j) & 1u8 == 1u8) == (((self.0 >> j) & 1u8 == 1u8) || ((other.0 >> j) & 1u8 == 1u8)));
                }
            }
            assert(r@ =~= self@.union(other@));
        }
        r
    }

    /// The elements of the set that are not in the other, as a set of
    /// Dimensions.
    pub fn difference(self, other: Rights) -> (r: Rights)
        ensures
            r@ == self@.difference(other@).intersect(Set::new(|i: int| 0 <= i < 4)),
    {
        let r = Rights(self.0 & (!other.0 & 15u8));
        proof {
            reveal(byte_bit);
            lemma_byte_ops(self.0, other.0);
            assert forall|i: int| #[trigger] r@.contains(i) == self@.difference(other@).intersect(Set::new(|i: int| 0 <= i < 4)).contains(i) by {
                if 0 <= i < 8 {
                    let j = i as u8;
                    assert(((r.0 >> j) & 1u8 == 1u8) == (((self.0 >> j) & 1u8 == 1u8) && !((other.0 >> j) & 1u8 == 1u8) && j < 4));
                }
            }
            assert(r@ =~= self@.difference(other@).intersect(Set::new(|i: int| 0 <= i < 4)));
        }
        r
    }

    /// Returns `true` if the set holds the given Dimension.
    pub fn contains(self, d: Dimension) -> (r: bool)
        ensures
            r == self@.contains(d as int),
    {
        proof {
            reveal(byte_bit);
            lemma_byte_ops(self.0, 1u8 << d as u8);
        }
        (self.0 >> d as u8) & 1u8 == 1u8
    }

    /// Returns `true` if the set holds no Dimension.
    pub fn is_empty(self) -> (r: bool)
        ensures
            r == (self@ == Set::<int>::empty()),
    {
        proof {
            reveal(byte_bit);
            lemma_byte_ops(self.0, 0);
            if self.0 != 0 {
                assert(self@.contains(0) || self@.contains(1) || self@.contains(2) || self@.contains(3)
                    || self@.contains(4) || self@.contains(5) || self@.contains(6) || self@.contains(
                    7,
                ));
            } else {
                assert(self@ =~= Set::<int>::empty());
            }
        }
        self.0 == 0
    }
}

/// A Dimension is a Color and the Side of the board it castles to.
#[derive(Copy, Clone, PartialEq, Eq, Debug, Hash, Structural)]
pub enum Dimension {
    WhiteH,
    WhiteA,
    BlackH,
    BlackA,
}

/// The side of the board a king castles to: towards the H File or the A
/// File.
#[derive(Copy, Clone, PartialEq, Eq, Debug, Hash, Structural)]
pub enum Side {
    H,
    A,
}

impl Side {
    /// The Side of the rook on `rook_sq` from the king on `king_sq`: H when
    /// the rook has the higher Square.
    pub fn from_sqs(king_sq: Square, rook_sq: Square) -> (r: Side)
        ensures
            r == (if (king_sq as int) < (rook_sq as int) {
                Side::H
            } else {
                Side::A
            }),
    {
        if (king_sq as u8) < rook_sq as u8 {
            Side::H
        } else {
            Side::A
        }
    }
}

impl Dimension {
    /// The number of Dimensions.
    pub const N: usize = 4;

    /// Converts the given index into a Dimension.
    pub fn from_index(index: u8) -> (r: Dimension)
        requires
            index < 4,
        ensures
            r as u8 == index,
    {
        match index {
            0 => Dimension::WhiteH,
            1 => Dimension::WhiteA,
            2 => Dimension::BlackH,
            _ => Dimension::BlackA,
        }
    }

    /// The Dimension of the given Color and Side.
    pub fn from(color: Color, side: Side) -> (r: Dimension)
        ensures
            r as int == 2 * (color as int) + side as int,
    {
        Dimension::from_index(color as u8 * 2 + side as u8)
    }

    /// The Color of the Dimension.
    pub fn color(self) -> (r: Color)
        ensures
            r as int == (self as int) / 2,
    {
        match self {
            Dimension::WhiteH | Dimension::WhiteA => Color::White,
            Dimension::BlackH | Dimension::BlackA => Color::Black,
        }
    }

    /// The Side of the Dimension.
    pub fn side(self) -> (r: Side)
        ensures
            r as int == (self as int) % 2,
    {
        match self {
            Dimension::WhiteH | Dimension::BlackH => Side::H,
            Dimension::WhiteA | Dimension::BlackA => Side::A,
        }
    }

    /// The Dimension of a king on `king_sq` castling with the rook on
    /// `rook_sq`: White when the king is on the first Rank.
    pub fn from_sqs(king_sq: Square, rook_sq: Square) -> (r: Dimension)
        ensures
            r as int == 2 * (if (king_sq as int) / 8 == 0 {
                0int
            } else {
                1int
            }) + (if (king_sq as int) < (rook_sq as int) {
                0int
            } else {
                1int
            }),
    {
        let color = if king_sq.rank() == Rank::First {
            Color::White
        } else {
            Color::Black
        };
        Dimension::from(color, Side::from_sqs(king_sq, rook_sq))
    }

    /// The Squares the king and the rook end on after castling.
    pub fn get_targets(self) -> (r: (Square, Square))
        ensures
            r.0 as int == king_end(self as int),
            r.1 as int == rook_end(self as int),
    {
        match self {
            Dimension::WhiteH => (Square::G1, Square::F1),
            Dimension::WhiteA => (Square::C1, Square::D1),
            Dimension::BlackH => (Square::G8, Square::F8),
            Dimension::BlackA => (Square::C8, Square::D8),
        }
    }
}

/// The Square a king ends on after castling in the Dimension of index `d`.
pub open spec fn king_end(d: int) -> int {
    if d == 0 {
        6
    } else if d == 1 {
        2
    } else if d == 2 {
        62
    } else {
        58
    }
}

/// The Square a rook ends on after castling in the Dimension of index `d`.
pub open spec fn rook_end(d: int) -> int {
    if d == 0 {
        5
    } else if d == 1 {
        3
    } else if d == 2 {
        61
    } else {
        59
    }
}

/// The Squares between a king or rook and its end, with the end.
pub open spec fn path(from: int, to: int) -> Set<int> {
    between_set(from, to).insert(to)
}

/// The abstract castling information of a game.
pub struct CastlingModel {
    /// The castling rights held, by Dimension index.
    pub rights: Set<int>,
    /// The Square of the castling rook of each Dimension.
    pub rooks: Seq<int>,
    /// The Squares the king crosses when castling in each Dimension, which
    /// may not be attacked.
    pub attacks: Seq<Set<int>>,
    /// The Squares that must be empty to castle in each Dimension.
    pub blockers: Seq<Set<int>>,
    /// The rights lost when a piece moves from or to each Square.
    pub updates: Seq<Set<int>>,
}

/// The rights lost when a piece moves from or to `sq`: both rights of a
/// Color from its king's Square, one right from its rook's Square; a later
/// entry of the order White king, Black king, rooks of WhiteH, WhiteA,
/// BlackH, BlackA wins.
pub open spec fn update_of(sq: int, wk: int, bk: int, rooks: Seq<int>) -> Set<int> {
    if sq == rooks[3] {
        set![3int]
    } else if sq == rooks[2] {
        set![2int]
    } else if sq == rooks[1] {
        set![1int]
    } else if sq == rooks[0] {
        set![0int]
    } else if sq == bk {
        set![2int, 3int]
    } else if sq == wk {
        set![0int, 1int]
    } else {
        Set::empty()
    }
}

/// The castling information for kings on `wk` and `bk`, rooks on the files
/// given, and the given rights.
pub open spec fn castling_model(
    wk: int,
    wh: int,
    wa: int,
    bk: int,
    bh: int,
    ba: int,
    rights: Set<int>,
) -> CastlingModel {
    let rooks = seq![wh, wa, 56 + bh, 56 + ba];
    let kings = seq![wk, wk, bk, bk];
    CastlingModel {
        rights,
        rooks,
        attacks: Seq::new(4, |d: int| path(kings[d], king_end(d))),
        blockers: Seq::new(
            4,
            |d: int| path(kings[d], king_end(d)).union(path(rooks[d], rook_end(d))).difference(
                set![kings[d], rooks[d]],
            ),
        ),
        updates: Seq::new(64, |sq: int| update_of(sq, wk, bk, rooks)),
    }
}

/// Info holds the castling information of a game: the rights held, and for
/// each Dimension its rook and the Squares that take part.
#[derive(Copy, Clone)]
pub struct Info {
    /// The castling rights held.
    pub rights: Rights,
    rooks: [Square; 4],
    attacks_mask: [BitBoard; 4],
    blocker_mask: [BitBoard; 4],
    rights_masks: [Rights; 64],
}

impl View for Info {
    type V = CastlingModel;

    closed spec fn view(&self) -> CastlingModel {
        CastlingModel {
            rights: self.rights@,
            rooks: self.rooks@.map_values(|s: Square| s as int),
            attacks: self.attacks_mask@.map_values(|b: BitBoard| b@),
            blockers: self.blocker_mask@.map_values(|b: BitBoard| b@),
            updates: self.rights_masks@.map_values(|r: Rights| r@),
        }
    }
}

/// The Squares to clear and to keep safe when castling.
fn blocker_mask(king: Square, rook: Square, king_end: Square, rook_end: Square) -> (r: BitBoard)
    ensures
        r@ == path(king as int, king_end as int).union(path(rook as int, rook_end as int)).difference(
            set![king as int, rook as int],
        ),
{
    let r = BitBoard::between2(king, king_end).union(BitBoard::between2(rook, rook_end)).difference(
        BitBoard::from_square(king).with(rook),
    );
    proof {
        assert(r@ =~= path(king as int, king_end as int).union(path(rook as int, rook_end as int)).difference(
            set![king as int, rook as int],
        ));
    }
    r
}

/// The rights lost when a piece moves from or to the Square of index `i`,
/// for kings on `wk` and `bk` and rooks on `r0` to `r3`.
fn update_mask(i: u8, wk: u8, bk: u8, r0: u8, r1: u8, r2: u8, r3: u8) -> (m: Rights)
    ensures
        m@ == update_of(i as int, wk as int, bk as int, seq![r0 as int, r1 as int, r2 as int, r3 as int]),
{
    let e = Rights::new();
    if i == r3 {
        e.with(Dimension::BlackA)
    } else if i == r2 {
        e.with(Dimension::BlackH)
    } else if i == r1 {
        e.with(Dimension::WhiteA)
    } else if i == r0 {
        e.with(Dimension::WhiteH)
    } else if i == bk {
        let m = e.with(Dimension::BlackH).with(Dimension::BlackA);
        assert(m@ =~= set![2int, 3int]);
        m
    } else if i == wk {
        let m = e.with(Dimension::WhiteH).with(Dimension::WhiteA);
        assert(m@ =~= set![0int, 1int]);
        m
    } else {
        e
    }
}

/// The rights lost when a piece moves from or to each Square, for kings on
/// `wk` and `bk` and rooks on `r0` to `r3`.
fn rights_masks(wk: u8, bk: u8, r0: u8, r1: u8, r2: u8, r3: u8) -> (masks: [Rights; 64])
    ensures
        forall|k: int| 0 <= k < 64 ==> (#[trigger] masks@[k])@ == update_of(
            k,
            wk as int,
            bk as int,
            seq![r0 as int, r1 as int, r2 as int, r3 as int],
        ),
{
    let ghost ints = seq![r0 as int, r1 as int, r2 as int, r3 as int];
    let mut masks = [Rights(0u8); 64];
    let mut i: u8 = 0;
    while i < 64
        invariant
            i <= 64,
            masks@.len() == 64,
            ints == seq![r0 as int, r1 as int, r2 as int, r3 as int],
            forall|k: int| 0 <= k < i ==> (#[trigger] masks@[k])@ == update_of(k, wk as int, bk as int, ints),
        decreases 64 - i,
    {
        masks[i as usize] = update_mask(i, wk, bk, r0, r1, r2, r3);
        i = i + 1;
    }
    masks
}

impl Info {
    /// Builds the castling information for a White king on `w_king` with
    /// rooks on the first Rank in the given Files, a Black king on `b_king`
    /// with rooks on the eighth Rank in the given Files, and the given
    /// rights.
    #[verifier::spinoff_prover]
    #[verifier::rlimit(40)]
    pub fn from_squares(
        w_king: Square,
        w_rook_h: File,
        w_rook_a: File,
        b_king: Square,
        b_rook_h: File,
        b_rook_a: File,
        rights: Rights,
    ) -> (r: Info)
        ensures
            r@ == castling_model(
                w_king as int,
                w_rook_h as int,
                w_rook_a as int,
                b_king as int,
                b_rook_h as int,
                b_rook_a as int,
                rights@,
            ),
    {
        let rooks = [
            Square::new(w_rook_h, Rank::First),
            Square::new(w_rook_a, Rank::First),
            Square::new(b_rook_h, Rank::Eighth),
            Square::new(b_rook_a, Rank::Eighth),
        ];
        let blockers = [
            blocker_mask(w_king, rooks[0], Square::G1, Square::F1),
            blocker_mask(w_king, rooks[1], Square::C1, Square::D1),
            blocker_mask(b_king, rooks[2], Square::G8, Square::F8),
            blocker_mask(b_king, rooks[3], Square::C8, Square::D8),
        ];
        let attacks = [
            BitBoard::between2(w_king, Square::G1),
            BitBoard::between2(w_king, Square::C1),
            BitBoard::between2(b_king, Square::G8),
            BitBoard::between2(b_king, Square::C8),
        ];
        let ghost model = castling_model(
            w_king as int,
            w_rook_h as int,
            w_rook_a as int,
            b_king as int,
            b_rook_h as int,
            b_rook_a as int,
            rights@,
        );
        let ghost rook_ints = seq![rooks[0] as int, rooks[1] as int, rooks[2] as int, rooks[3] as int];
        proof {
            assert(rook_ints =~= model.rooks);
        }
        let masks = rights_masks(
            w_king as u8,
            b_king as u8,
            rooks[0] as u8,
            rooks[1] as u8,
            rooks[2] as u8,
            rooks[3] as u8,
        );
        let r = Info { rights, rooks, attacks_mask: attacks, blocker_mask: blockers, rights_masks: masks };
        proof {
            assert(r@.rooks =~= model.rooks);
            assert forall|d: int| 0 <= d < 4 implies #[trigger] r@.attacks[d] == model.attacks[d] by {
                assert(r@.attacks[d] == attacks[d]@);
            }
            assert(r@.attacks =~= model.attacks);
            assert forall|d: int| 0 <= d < 4 implies #[trigger] r@.blockers[d] == model.blockers[d] by {
                assert(r@.blockers[d] == blockers[d]@);
            }
            assert(r@.blockers =~= model.blockers);
            assert(r@.updates =~= model.updates);
        }
        r
    }

    /// The rights lost when a piece moves from or to the given Square.
    pub fn get_updates(&self, square: Square) -> (r: Rights)
        ensures
            r@ == self@.updates[square as int],
    {
        proof {
            assert(self@.updates[square as int] == self.rights_masks@[square as int]@);
        }
        self.rights_masks[square as usize]
    }

    /// The castling rights held: those of the public `rights` field, which
    /// verified code reads through this method.
    pub fn rights(&self) -> (r: Rights)
        ensures
            r@ == self@.rights,
    {
        self.rights
    }

    /// There is one entry for each Dimension and for each Square.
    pub proof fn lemma_lengths(self)
        ensures
            self@.rooks.len() == 4,
            self@.attacks.len() == 4,
            self@.blockers.len() == 4,
            self@.updates.len() == 64,
    {
    }

    /// Whether the right to castle in the given Dimension is held.
    pub fn has_right(&self, side: Dimension) -> (r: bool)
        ensures
            r == self@.rights.contains(side as int),
    {
        self.rights.contains(side)
    }

    /// The Square of the castling rook of the given Dimension.
    pub fn rook(&self, side: Dimension) -> (r: Square)
        ensures
            r as int == self@.rooks[side as int],
    {
        self.rooks[side as usize]
    }

    /// The Squares the king crosses when castling in the given Dimension.
    pub fn attack_mask(&self, side: Dimension) -> (r: BitBoard)
        ensures
            r@ == self@.attacks[side as int],
    {
        self.attacks_mask[side as usize]
    }

    /// The Squares that must be empty to castle in the given Dimension.
    pub fn blocker_mask(&self, side: Dimension) -> (r: BitBoard)
        ensures
            r@ == self@.blockers[side as int],
    {
        self.blocker_mask[side as usize]
    }

    /// Removes the given rights.
    pub fn remove_rights(&mut self, lost: Rights)
        ensures
            final(self)@ == (CastlingModel {
                rights: old(self)@.rights.difference(lost@).intersect(Set::new(|i: int| 0 <= i < 4)),
                ..old(self)@
            }),
    {
        self.rights = self.rights.difference(lost);
    }
}

/// CastlingRightsParseError represents an error encountered while reading
/// the castling rights field of a FEN string.
#[derive(Debug, PartialEq, Eq)]
pub enum CastlingRightsParseError {
    /// A File letter of a Chess960 right could not be read.
    FileParseError(TypeParseError),
    /// The field, or the given character of it, is not a castling right.
    Invalid(String),
}

/// An upper-case ASCII letter.
pub open spec fn is_upper(c: char) -> bool {
    'A' <= c && c <= 'Z'
}

/// The lower-case letter of an upper-case ASCII letter.
pub open spec fn lower(c: char) -> char {
    ((c as int) + 32) as char
}

/// The outcome of reading castling rights one character at a time.
pub enum RightsRead {
    /// The rights read, and the Files of the White H and A rooks and of the
    /// Black H and A rooks.
    Done(Set<int>, int, int, int, int),
    /// A File letter could not be read.
    BadFile,
    /// The character is not a castling right.
    Invalid(char),
}

/// Reads castling rights. In standard notation `K`, `Q`, `k`, `q` name the
/// rights of the White H and A sides and the Black H and A sides. In Chess960
/// notation a letter names the File of a rook, upper case for White: beyond
/// the File of its king `wkf` or `bkf` it is the H side rook, else the A side
/// rook.
pub open spec fn read_rights(t: Seq<char>, frc: bool, wkf: int, bkf: int) -> RightsRead
    decreases t.len(),
{
    if t.len() == 0 {
        RightsRead::Done(Set::empty(), 7, 0, 7, 0)
    } else {
        match read_rights(t.drop_last(), frc, wkf, bkf) {
            RightsRead::Done(rights, wh, wa, bh, ba) => {
                let c = t.last();
                if frc {
                    if is_upper(c) {
                        match file_text(seq![lower(c)], 8) {
                            None => RightsRead::BadFile,
                            Some(x) => if x > wkf {
                                RightsRead::Done(rights.insert(0), x, wa, bh, ba)
                            } else {
                                RightsRead::Done(rights.insert(1), wh, x, bh, ba)
                            },
                        }
                    } else {
                        match file_text(seq![c], 8) {
                            None => RightsRead::BadFile,
                            Some(x) => if x > bkf {
                                RightsRead::Done(rights.insert(2), wh, wa, x, ba)
                            } else {
                                RightsRead::Done(rights.insert(3), wh, wa, bh, x)
                            },
                        }
                    }
                } else if c == 'K' {
                    RightsRead::Done(rights.insert(0), wh, wa, bh, ba)
                } else if c == 'Q' {
                    RightsRead::Done(rights.insert(1), wh, wa, bh, ba)
                } else if c == 'k' {
                    RightsRead::Done(rights.insert(2), wh, wa, bh, ba)
                } else if c == 'q' {
                    RightsRead::Done(rights.insert(3), wh, wa, bh, ba)
                } else {
                    RightsRead::Invalid(c)
                }
            },
            other => other,
        }
    }
}

/// The outcome of reading the castling field of a FEN string.
pub enum CastlingRead {
    /// The castling information read.
    Read(CastlingModel),
    /// A File letter could not be read.
    BadFile,
    /// The text is not a castling field; the characters given are refused.
    Invalid(Seq<char>),
}

/// Reads the castling field `t`, of `bytes` bytes, for kings on `wk` and
/// `bk`: `-` for no rights, with the kings on e1 and e8 and the rooks in the
/// corners; else one to four bytes of rights, in Chess960 notation unless
/// the first is one of `KQkq`.
pub open spec fn castling_text(t: Seq<char>, bytes: int, wk: int, bk: int) -> CastlingRead {
    if t == seq!['-'] {
        CastlingRead::Read(castling_model(4, 7, 0, 60, 7, 0, Set::empty()))
    } else if t.len() == 0 || bytes > 4 {
        CastlingRead::Invalid(t)
    } else {
        let frc = !(t[0] == 'K' || t[0] == 'Q' || t[0] == 'k' || t[0] == 'q');
        match read_rights(t, frc, wk % 8, bk % 8) {
            RightsRead::Done(rights, wh, wa, bh, ba) => CastlingRead::Read(
                castling_model(wk, wh, wa, bk, bh, ba, rights),
            ),
            RightsRead::BadFile => CastlingRead::BadFile,
            RightsRead::Invalid(c) => CastlingRead::Invalid(seq![c]),
        }
    }
}

impl Info {
    /// Reads the castling rights field of a FEN string, for a White king on
    /// `white_king` and a Black king on `black_king`.
    pub fn from_str(s: &str, white_king: Square, black_king: Square) -> (r: Result<
        Info,
        CastlingRightsParseError,
    >)
        ensures
            match castling_text(s@, s.len() as int, white_king as int, black_king as int) {
                CastlingRead::Read(m) => r matches Ok(info) && info@ == m,
                CastlingRead::BadFile => r matches Err(
                    CastlingRightsParseError::FileParseError(TypeParseError::StrError(n)),
                ) && n@ == "File"@,
                CastlingRead::Invalid(t) => r matches Err(CastlingRightsParseError::Invalid(x))
                    && x@ == t,
            },
            0 < s@.len() && s.len() <= 4 && all_castling_letters(s@) ==> (r matches Ok(info)
                && info@.rights == standard_rights(s@)),
            0 < s@.len() && s.len() <= 4 && all_rook_letters(s@) ==> (r matches Ok(info) && info@.rights
                == rook_letter_rights(s@, white_king as int % 8, black_king as int % 8)),
    {
        let r = Self::read_field(s, white_king, black_king);
        proof {
            if 0 < s@.len() && s.len() <= 4 && all_castling_letters(s@) {
                law_standard_castling_field(s@, s.len() as int, white_king as int, black_king as int);
            }
            if 0 < s@.len() && s.len() <= 4 && all_rook_letters(s@) {
                law_rook_letters_field(s@, s.len() as int, white_king as int, black_king as int);
            }
        }
        r
    }

    /// Reads the castling rights field as [`castling_text`] says.
    fn read_field(s: &str, white_king: Square, black_king: Square) -> (r: Result<
        Info,
        CastlingRightsParseError,
    >)
        ensures
            match castling_text(s@, s.len() as int, white_king as int, black_king as int) {
                CastlingRead::Read(m) => r matches Ok(info) && info@ == m,
                CastlingRead::BadFile => r matches Err(
                    CastlingRightsParseError::FileParseError(TypeParseError::StrError(n)),
                ) && n@ == "File"@,
                CastlingRead::Invalid(t) => r matches Err(CastlingRightsParseError::Invalid(x))
                    && x@ == t,
            },
    {
        let chars = chars_of(s);
        let ghost t = s@;
        if chars.len() == 1 && chars[0] == '-' {
            proof {
                assert(t =~= seq!['-']);
            }
            return Ok(
                Info::from_squares(
                    Square::E1,
                    File::H,
                    File::A,
                    Square::E8,
                    File::H,
                    File::A,
                    Rights::new(),
                ),
            );
        }
        proof {
            if t == seq!['-'] {
                assert(t[0] == '-');
            }
        }
        if chars.len() == 0 || s.len() > 4 {
            return Err(CastlingRightsParseError::Invalid(s.to_owned()));
        }
        let first = chars[0];
        let frc = !(first == 'K' || first == 'Q' || first == 'k' || first == 'q');
        let wkf = white_king as u8 % 8;
        let bkf = black_king as u8 % 8;
        let mut rights = Rights::new();
        let mut white_h = File::H;
        let mut white_a = File::A;
        let mut black_h = File::H;
        let mut black_a = File::A;
        let mut k: usize = 0;
        proof {
            assert(t.take(0) =~= Seq::<char>::empty());
        }
        while k < chars.len()
            invariant
                0 <= k <= chars@.len(),
                chars@ == t,
                t == s@,
                t.len() > 0,
                t != seq!['-'],
                s.len() <= 4,
                frc == !(t[0] == 'K' || t[0] == 'Q' || t[0] == 'k' || t[0] == 'q'),
                wkf == (white_king as int) % 8,
                bkf == (black_king as int) % 8,
                read_rights(t.take(k as int), frc, wkf as int, bkf as int) == RightsRead::Done(
                    rights@,
                    white_h as int,
                    white_a as int,
                    black_h as int,
                    black_a as int,
                ),
            decreases chars@.len() - k,
        {
            let c = chars[k];
            proof {
                assert(t.take(k + 1).drop_last() =~= t.take(k as int));
                assert(t.take(k + 1).last() == c);
            }
            if frc {
                if 'A' <= c && c <= 'Z' {
                    let l = [((c as u8) + 32) as char];
                    proof {
                        assert(l@ =~= seq![lower(c)]);
                        assert(l@.subrange(0, 1) =~= l@);
                    }
                    let file = match File::parse(&l, 0, 1) {
                        Ok(f) => f,
                        Err(e) => {
                            proof {
                                lemma_read_rights_stops(t, frc, wkf as int, bkf as int, k as int + 1);
                            }
                            return Err(CastlingRightsParseError::FileParseError(e));
                        },
                    };
                    if file as u8 > wkf {
                        white_h = file;
                        rights = rights.with(Dimension::WhiteH);
                    } else {
                        white_a = file;
                        rights = rights.with(Dimension::WhiteA);
                    }
                } else {
                    let l = [c];
                    proof {
                        assert(l@ =~= seq![c]);
                        assert(l@.subrange(0, 1) =~= l@);
                    }
                    let file = match File::parse(&l, 0, 1) {
                        Ok(f) => f,
                        Err(e) => {
                            proof {
                                lemma_read_rights_stops(t, frc, wkf as int, bkf as int, k as int + 1);
                            }
                            return Err(CastlingRightsParseError::FileParseError(e));
                        },
                    };
                    if file as u8 > bkf {
                        black_h = file;
                        rights = rights.with(Dimension::BlackH);
                    } else {
                        black_a = file;
                        rights = rights.with(Dimension::BlackA);
                    }
                }
            } else {
                if c == 'K' {
                    rights = rights.with(Dimension::WhiteH);
                } else if c == 'Q' {
                    rights = rights.with(Dimension::WhiteA);
                } else if c == 'k' {
                    rights = rights.with(Dimension::BlackH);
                } else if c == 'q' {
                    rights = rights.with(Dimension::BlackA);
                } else {
                    proof {
                        lemma_read_rights_stops(t, frc, wkf as int, bkf as int, k as int + 1);
                    }
                    let mut v: Vec<char> = Vec::new();
                    v.push(c);
                    proof {
                        assert(v@ =~= seq![c]);
                    }
                    return Err(CastlingRightsParseError::Invalid(string_of(v.as_slice())));
                }
            }
            k = k + 1;
        }
        proof {
            assert(t.take(k as int) =~= t);
        }
        Ok(Info::from_squares(white_king, white_h, white_a, black_king, black_h, black_a, rights))
    }
}

/// The letters of the standard castling rights, by the index of their
/// Dimension: `K` and `Q` for the White H and A sides, `k` and `q` for the
/// Black H and A sides.
pub open spec fn castling_letters() -> Seq<char> {
    seq!['K', 'Q', 'k', 'q']
}

/// The rights named by a field in standard notation: the Dimension of index
/// `i` for each letter `castling_letters()[i]` the field holds.
pub open spec fn standard_rights(t: Seq<char>) -> Set<int> {
    Set::new(|i: int| 0 <= i < 4 && t.contains(castling_letters()[i]))
}

/// Every character of the text is one of the standard castling letters.
pub open spec fn all_castling_letters(t: Seq<char>) -> bool {
    forall|j: int| 0 <= j < t.len() ==> castling_letters().contains(#[trigger] t[j])
}

/// In standard notation each letter gives its own right, whatever the order
/// and repetition of the letters: the rights read are those whose letters
/// the text holds, and the rooks stay in the corners.
pub proof fn law_standard_letters(t: Seq<char>, wkf: int, bkf: int)
    requires
        all_castling_letters(t),
    ensures
        read_rights(t, false, wkf, bkf) == RightsRead::Done(standard_rights(t), 7, 0, 7, 0),
    decreases t.len(),
{
    if t.len() == 0 {
        assert(standard_rights(t) =~= Set::<int>::empty());
    } else {
        let p = t.drop_last();
        let c = t.last();
        assert forall|j: int| 0 <= j < p.len() implies castling_letters().contains(#[trigger] p[j]) by {
            assert(p[j] == t[j]);
        }
        law_standard_letters(p, wkf, bkf);
        assert(castling_letters().contains(t[t.len() - 1]));
        let i = choose|i: int| 0 <= i < 4 && castling_letters()[i] == c;
        assert forall|x: char| t.contains(x) <==> (p.contains(x) || x == c) by {
            if t.contains(x) {
                let j = choose|j: int| 0 <= j < t.len() && t[j] == x;
                if j < t.len() - 1 {
                    assert(p[j] == x);
                }
            }
            if p.contains(x) {
                let j = choose|j: int| 0 <= j < p.len() && p[j] == x;
                assert(t[j] == x);
            }
            if x == c {
                assert(t[t.len() - 1] == x);
            }
        }
        assert(standard_rights(p).insert(i) =~= standard_rights(t));
    }
}

/// A castling field of one to four bytes in standard notation is read, and
/// the rights read are exactly those whose letters it holds.
pub proof fn law_standard_castling_field(t: Seq<char>, bytes: int, wk: int, bk: int)
    requires
        0 < t.len(),
        bytes <= 4,
        all_castling_letters(t),
    ensures
        castling_text(t, bytes, wk, bk) matches CastlingRead::Read(m) && m.rights == standard_rights(
            t,
        ),
{
    assert(castling_letters().contains(t[0]));
    if t == seq!['-'] {
        assert(t[0] == '-');
    }
    law_standard_letters(t, wk % 8, bk % 8);
}

/// A letter of a rook's File in Chess960 notation: `A` to `H` for White,
/// `a` to `h` for Black.
pub open spec fn is_rook_letter(c: char) -> bool {
    ('A' <= c && c <= 'H') || ('a' <= c && c <= 'h')
}

/// The Dimension a rook's File letter names in Chess960 notation, for kings
/// on the Files `wkf` and `bkf`: a White rook beyond its king's File is on
/// the H side, else on the A side, and likewise for Black.
pub open spec fn rook_letter_right(c: char, wkf: int, bkf: int) -> int {
    if 'A' <= c && c <= 'H' {
        if (c as int) - ('A' as int) > wkf {
            0
        } else {
            1
        }
    } else if (c as int) - ('a' as int) > bkf {
        2
    } else {
        3
    }
}

/// The rights named by a field in Chess960 notation: one for each letter.
pub open spec fn rook_letter_rights(t: Seq<char>, wkf: int, bkf: int) -> Set<int> {
    Set::new(|i: int| exists|j: int| 0 <= j < t.len() && rook_letter_right(#[trigger] t[j], wkf, bkf) == i)
}

/// Every character of the text is a rook's File letter.
pub open spec fn all_rook_letters(t: Seq<char>) -> bool {
    forall|j: int| 0 <= j < t.len() ==> is_rook_letter(#[trigger] t[j])
}

/// In Chess960 notation each File letter gives the right of the side of its
/// rook: upper case for White, lower case for Black, the H side when the
/// rook stands beyond its king's File and the A side otherwise.
pub proof fn law_rook_letters(t: Seq<char>, wkf: int, bkf: int)
    requires
        all_rook_letters(t),
    ensures
        read_rights(t, true, wkf, bkf) matches RightsRead::Done(rights, _, _, _, _) && rights
            == rook_letter_rights(t, wkf, bkf),
    decreases t.len(),
{
    if t.len() == 0 {
        assert(rook_letter_rights(t, wkf, bkf) =~= Set::<int>::empty());
    } else {
        let p = t.drop_last();
        let c = t.last();
        assert forall|j: int| 0 <= j < p.len() implies is_rook_letter(#[trigger] p[j]) by {
            assert(p[j] == t[j]);
        }
        law_rook_letters(p, wkf, bkf);
        assert(is_rook_letter(t[t.len() - 1]));
        let i = rook_letter_right(c, wkf, bkf);
        if is_upper(c) {
            assert(lower(c) as int == c as int + 32);
            assert(seq![lower(c)][0] == lower(c));
        } else {
            assert(seq![c][0] == c);
        }
        assert forall|k: int| #[trigger] rook_letter_rights(t, wkf, bkf).contains(k) <==> (rook_letter_rights(
            p,
            wkf,
            bkf,
        ).contains(k) || k == i) by {
            if exists|j: int| 0 <= j < t.len() && rook_letter_right(#[trigger] t[j], wkf, bkf) == k {
                let j = choose|j: int| 0 <= j < t.len() && rook_letter_right(#[trigger] t[j], wkf, bkf) == k;
                if j < t.len() - 1 {
                    assert(p[j] == t[j]);
                }
            }
            if exists|j: int| 0 <= j < p.len() && rook_letter_right(#[trigger] p[j], wkf, bkf) == k {
                let j = choose|j: int| 0 <= j < p.len() && rook_letter_right(#[trigger] p[j], wkf, bkf) == k;
                assert(t[j] == p[j]);
            }
            if k == i {
                assert(rook_letter_right(t[t.len() - 1], wkf, bkf) == k);
            }
        }
        match read_rights(p, true, wkf, bkf) {
            RightsRead::Done(rights, _, _, _, _) => {
                assert(rights.insert(i) =~= rook_letter_rights(t, wkf, bkf));
            },
            _ => {},
        }
    }
}

/// A castling field of one to four bytes in Chess960 notation is read, and
/// the rights read are those its File letters name.
pub proof fn law_rook_letters_field(t: Seq<char>, bytes: int, wk: int, bk: int)
    requires
        0 < t.len(),
        bytes <= 4,
        all_rook_letters(t),
    ensures
        castling_text(t, bytes, wk, bk) matches CastlingRead::Read(m) && m.rights == rook_letter_rights(
            t,
            wk % 8,
            bk % 8,
        ),
{
    assert(is_rook_letter(t[0]));
    if t == seq!['-'] {
        assert(t[0] == '-');
    }
    law_rook_letters(t, wk % 8, bk % 8);
}

/// Once reading castling rights fails, it fails the same way on any longer
/// text.
pub proof fn lemma_read_rights_stops(t: Seq<char>, frc: bool, wkf: int, bkf: int, k: int)
    requires
        0 <= k <= t.len(),
        !(read_rights(t.take(k), frc, wkf, bkf) is Done),
    ensures
        read_rights(t, frc, wkf, bkf) == read_rights(t.take(k), frc, wkf, bkf),
    decreases t.len() - k,
{
    if k < t.len() {
        assert(t.take(k + 1).drop_last() =~= t.take(k));
        lemma_read_rights_stops(t, frc, wkf, bkf, k + 1);
    } else {
        assert(t.take(k) =~= t);
    }
}

} // verus!
