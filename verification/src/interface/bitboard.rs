//! Board-shape-independent operations on the `u64` words that back every
//! BitBoard of the library. A board has `f` files and `n` squares, square `i`
//! standing on file `i % f` and rank `i / f`. The word `u` holds the squares
//! of the board, the word `ff` those of its first file.
use vstd::prelude::*;
use super::{RepresentableType, SetType, SquareType};
use crate::bits::{
    below, bit, bits, count_ones, lemma_bit_consts, lemma_bit_ops, lemma_bit_shifts, lemma_bits_eq,
    lemma_bits_finite, lemma_bits_ops, lemma_clear_lowest, lowest,
};

verus! {

/// The facts about a board shape and its two masks that every shift relies on.
pub open spec fn geometry(f: u64, n: u64, u: u64, ff: u64) -> bool {
    &&& 2 <= f <= 8
    &&& f <= n <= 64
    &&& (n as int) % (f as int) == 0
    &&& bits(u) == below(n as int)
    &&& forall|i: int| #[trigger] bit(ff, i) == (0 <= i < n && i % (f as int) == 0)
    &&& forall|i: int| #[trigger] bit(u ^ ff, i) == (0 <= i < n && i % (f as int) != 0)
    &&& forall|i: int|
        #[trigger] bit(u ^ (ff << ((f - 1) as u64)), i) == (0 <= i < n && i % (f as int) != f - 1)
}

/// Every square one rank up.
pub open spec fn north_set(s: Set<int>, f: int, n: int) -> Set<int> {
    Set::new(|i: int| f <= i < n && s.contains(i - f))
}

/// Every square one rank down.
pub open spec fn south_set(s: Set<int>, f: int) -> Set<int> {
    Set::new(|i: int| 0 <= i && i + f < 64 && s.contains(i + f))
}

/// Every square one file to the east, dropping those that leave the board.
pub open spec fn east_set(s: Set<int>, f: int, n: int) -> Set<int> {
    Set::new(|i: int| 0 <= i < n && i % f != 0 && s.contains(i - 1))
}

/// Every square one file to the west, dropping those that leave the board.
pub open spec fn west_set(s: Set<int>, f: int, n: int) -> Set<int> {
    Set::new(|i: int| 0 <= i < n && i % f != f - 1 && s.contains(i + 1))
}

/// Shifting a union of Squares shifts each part: every shift of a BitBoard,
/// north, south, east or west, distributes over union.
pub proof fn law_shifts_distribute(a: Set<int>, b: Set<int>, f: int, n: int)
    ensures
        north_set(a.union(b), f, n) == north_set(a, f, n).union(north_set(b, f, n)),
        south_set(a.union(b), f) == south_set(a, f).union(south_set(b, f)),
        east_set(a.union(b), f, n) == east_set(a, f, n).union(east_set(b, f, n)),
        west_set(a.union(b), f, n) == west_set(a, f, n).union(west_set(b, f, n)),
{
    assert(north_set(a.union(b), f, n) =~= north_set(a, f, n).union(north_set(b, f, n)));
    assert(south_set(a.union(b), f) =~= south_set(a, f).union(south_set(b, f)));
    assert(east_set(a.union(b), f, n) =~= east_set(a, f, n).union(east_set(b, f, n)));
    assert(west_set(a.union(b), f, n) =~= west_set(a, f, n).union(west_set(b, f, n)));
}

/// The squares of file `file`.
pub open spec fn file_set(file: int, f: int, n: int) -> Set<int> {
    Set::new(|i: int| 0 <= i < n && i % f == file)
}

/// The squares of rank `rank`.
pub open spec fn rank_set(rank: int, f: int, n: int) -> Set<int> {
    Set::new(|i: int| 0 <= i < n && i / f == rank)
}

/// The members of `s` in `i..64`, in ascending order.
pub open spec fn ascending_from(s: Set<int>, i: int) -> Seq<int>
    decreases 64 - i,
{
    if i >= 64 || i < 0 {
        Seq::empty()
    } else if s.contains(i) {
        seq![i] + ascending_from(s, i + 1)
    } else {
        ascending_from(s, i + 1)
    }
}

/// The members of `s` in `0..64`, in ascending order.
pub open spec fn ascending(s: Set<int>) -> Seq<int> {
    ascending_from(s, 0)
}

/// The indices of the set bits of `x` in ascending order: the order in which
/// a BitBoard hands out its squares.
pub open spec fn bit_seq(x: u64) -> Seq<int> {
    ascending(bits(x))
}

/// Shifts every square one rank up.
pub fn shift_north(x: u64, f: u64, n: u64, u: u64, ff: u64) -> (r: u64)
    requires
        geometry(f, n, u, ff),
    ensures
        bits(r) == north_set(bits(x), f as int, n as int),
{
    let r = (x << f) & u;
    proof {
        lemma_bit_shifts(x, f);
        lemma_bit_ops(x << f, u);
        assert forall|i: int| #[trigger] bits(r).contains(i) == north_set(bits(x), f as int, n as int).contains(i) by {
            assert(bit(u, i) == below(n as int).contains(i));
        }
        assert(bits(r) =~= north_set(bits(x), f as int, n as int));
    }
    r
}

/// Shifts every square one rank down.
pub fn shift_south(x: u64, f: u64) -> (r: u64)
    requires
        f < 64,
    ensures
        bits(r) == south_set(bits(x), f as int),
{
    let r = x >> f;
    proof {
        lemma_bit_shifts(x, f);
        assert(bits(r) =~= south_set(bits(x), f as int));
    }
    r
}

/// Shifts every square one file to the east.
pub fn shift_east(x: u64, f: u64, n: u64, u: u64, ff: u64) -> (r: u64)
    requires
        geometry(f, n, u, ff),
    ensures
        bits(r) == east_set(bits(x), f as int, n as int),
{
    let r = (x << 1u64) & (u ^ ff);
    proof {
        lemma_bit_shifts(x, 1);
        lemma_bit_ops(x << 1u64, u ^ ff);
        assert(bits(r) =~= east_set(bits(x), f as int, n as int));
    }
    r
}

/// Shifts every square one file to the west.
pub fn shift_west(x: u64, f: u64, n: u64, u: u64, ff: u64) -> (r: u64)
    requires
        geometry(f, n, u, ff),
    ensures
        bits(r) == west_set(bits(x), f as int, n as int),
{
    let r = (x >> 1u64) & (u ^ (ff << (f - 1)));
    proof {
        lemma_bit_shifts(x, 1);
        lemma_bit_ops(x >> 1u64, u ^ (ff << (f - 1)));
        assert(bits(r) =~= west_set(bits(x), f as int, n as int));
    }
    r
}

/// The word holding one square.
pub fn singleton(i: u64) -> (r: u64)
    requires
        i < 64,
    ensures
        bits(r) == set![i as int],
{
    let r = 1u64 << i;
    proof {
        lemma_bit_consts();
        assert(bits(r) =~= set![i as int]);
    }
    r
}

/// Whether the word holds square `i`.
pub fn has(x: u64, i: u64) -> (r: bool)
    requires
        i < 64,
    ensures
        r == bits(x).contains(i as int),
{
    let m = singleton(i);
    proof {
        lemma_bits_ops(x, m);
        lemma_bit_consts();
        if (x & m) == 0u64 {
            assert(!bits(0u64).contains(i as int));
        } else {
            if !bits(x).contains(i as int) {
                assert(bits(x & m) =~= bits(0u64));
                lemma_bits_eq(x & m, 0u64);
            }
        }
    }
    (x & m) != 0u64
}

/// Whether the word holds no square.
pub fn none(x: u64) -> (r: bool)
    ensures
        r == (bits(x) == Set::<int>::empty()),
{
    proof {
        lemma_bit_consts();
        if x == 0u64 {
            assert(bits(x) =~= Set::<int>::empty());
        } else if bits(x) == Set::<int>::empty() {
            assert(bits(x) =~= bits(0u64));
            lemma_bits_eq(x, 0u64);
        }
    }
    x == 0u64
}

/// The number of squares held.
pub fn count(x: u64) -> (r: usize)
    ensures
        r == bits(x).len(),
        r <= 64,
{
    proof {
        lemma_bits_finite(x);
    }
    count_ones(x) as usize
}

/// The lowest square held, with the word left holding the others.
pub fn pop_lowest(x: u64) -> (r: (u64, u64))
    requires
        x != 0,
    ensures
        r.0 < 64,
        bits(x).contains(r.0 as int),
        forall|j: int| 0 <= j < r.0 ==> !#[trigger] bits(x).contains(j),
        bits(r.1) == bits(x).remove(r.0 as int),
        bit_seq(x) == seq![r.0 as int] + bit_seq(r.1),
{
    let t = x.trailing_zeros() as u64;
    let rest = x & (x - 1);
    proof {
        lemma_clear_lowest(x);
        lemma_bit_seq_pop(x);
    }
    (t, rest)
}

/// `seq_from` only looks at the bits from `i` upwards.
pub proof fn lemma_seq_from_agree(x: u64, y: u64, i: int)
    requires
        forall|j: int| i <= j ==> #[trigger] bit(x, j) == bit(y, j),
    ensures
        ascending_from(bits(x), i) == ascending_from(bits(y), i),
    decreases 64 - i,
{
    if 0 <= i < 64 {
        lemma_seq_from_agree(x, y, i + 1);
        assert(bit(x, i) == bit(y, i));
        assert(bits(x).contains(i) == bits(y).contains(i));
    }
}

/// `seq_from` skips a run of clear bits.
pub proof fn lemma_seq_from_skip(x: u64, i: int, j: int)
    requires
        0 <= i <= j <= 64,
        forall|k: int| i <= k < j ==> !#[trigger] bit(x, k),
    ensures
        ascending_from(bits(x), i) == ascending_from(bits(x), j),
    decreases j - i,
{
    if i < j {
        lemma_seq_from_skip(x, i + 1, j);
        assert(!bit(x, i));
        assert(!bits(x).contains(i));
    }
}

/// The ascending order starts with the lowest set bit.
pub proof fn lemma_bit_seq_pop(x: u64)
    requires
        x != 0,
    ensures
        bit_seq(x) == seq![lowest(x)] + bit_seq(x & ((x - 1u64) as u64)),
{
    lemma_clear_lowest(x);
    let t = lowest(x);
    let y = (x & ((x - 1u64) as u64)) as u64;
    lemma_seq_from_skip(x, 0, t);
    assert(ascending_from(bits(x), t) == seq![t] + ascending_from(bits(x), t + 1));
    assert forall|k: int| 0 <= k < t + 1 implies !#[trigger] bit(y, k) by {
        assert(bits(y).contains(k) == bit(y, k));
        assert(bits(x).contains(k) == bit(x, k));
    }
    lemma_seq_from_skip(y, 0, t + 1);
    assert forall|j: int| t + 1 <= j implies #[trigger] bit(x, j) == bit(y, j) by {
        assert(bits(y).contains(j) == bit(y, j));
        assert(bits(x).contains(j) == bit(x, j));
    }
    lemma_seq_from_agree(x, y, t + 1);
}

/// The ascending order holds each set bit once.
pub proof fn lemma_bit_seq_len(x: u64)
    ensures
        bit_seq(x).len() == bits(x).len(),
        bit_seq(x).to_set() == bits(x),
        bit_seq(x).no_duplicates(),
        forall|k: int| 0 <= k < bit_seq(x).len() ==> bits(x).contains(#[trigger] bit_seq(x)[k]),
    decreases bits(x).len(),
{
    lemma_bits_finite(x);
    if x == 0 {
        lemma_bit_consts();
        assert forall|k: int| 0 <= k < 64 implies !#[trigger] bit(x, k) by {}
        lemma_seq_from_skip(x, 0, 64);
        assert(bits(x) =~= Set::<int>::empty());
        assert(bit_seq(x).to_set() =~= Set::<int>::empty());
    } else {
        lemma_clear_lowest(x);
        lemma_bit_seq_pop(x);
        let y = (x & ((x - 1u64) as u64)) as u64;
        let t = lowest(x);
        lemma_bits_finite(y);
        lemma_bit_seq_len(y);
        assert(bit_seq(x).to_set() =~= bits(x)) by {
            assert forall|e: int| #[trigger] bit_seq(x).to_set().contains(e) == bits(x).contains(e) by {
                if bit_seq(x).to_set().contains(e) {
                    let k = choose|k: int| 0 <= k < bit_seq(x).len() && bit_seq(x)[k] == e;
                    if k > 0 {
                        assert(bit_seq(y)[k - 1] == e);
                    }
                }
                if bits(x).contains(e) {
                    if e == t {
                        assert(bit_seq(x)[0] == e);
                    } else {
                        assert(bits(y).contains(e));
                        assert(bit_seq(y).to_set().contains(e));
                        let k = choose|k: int| 0 <= k < bit_seq(y).len() && bit_seq(y)[k] == e;
                        assert(bit_seq(x)[k + 1] == e);
                    }
                }
            }
        }
        assert forall|k: int| 0 <= k < bit_seq(x).len() implies bits(x).contains(#[trigger] bit_seq(x)[k]) by {
            if k > 0 {
                assert(bit_seq(x)[k] == bit_seq(y)[k - 1]);
            }
        }
        assert forall|a: int, b: int| 0 <= a < b < bit_seq(x).len() implies bit_seq(x)[a] != bit_seq(x)[b] by {
            if a == 0 {
                assert(bit_seq(x)[b] == bit_seq(y)[b - 1]);
                assert(bits(y).contains(bit_seq(y)[b - 1]));
            } else {
                assert(bit_seq(x)[a] == bit_seq(y)[a - 1]);
                assert(bit_seq(x)[b] == bit_seq(y)[b - 1]);
            }
        }
    }
}

} // verus!

verus! {

/// At most `64 - i` members lie in `i..64`.
pub proof fn lemma_ascending_len(s: Set<int>, i: int)
    requires
        0 <= i <= 64,
    ensures
        ascending_from(s, i).len() <= 64 - i,
    decreases 64 - i,
{
    if i < 64 {
        lemma_ascending_len(s, i + 1);
    }
}

/// Once the set is empty, its order has no members.
pub proof fn lemma_bit_seq_empty(x: u64)
    requires
        bits(x) == Set::<int>::empty(),
    ensures
        bit_seq(x) == Seq::<int>::empty(),
{
    lemma_bit_seq_len(x);
    assert(bits(x).len() == 0);
}

/// The ascending order from `i` holds each member of `s` in `i..64` once.
pub proof fn lemma_ascending_count(s: Set<int>, i: int)
    requires
        0 <= i <= 64,
    ensures
        s.intersect(vstd::set_lib::set_int_range(i, 64)).finite(),
        ascending_from(s, i).len() == s.intersect(vstd::set_lib::set_int_range(i, 64)).len(),
        ascending_from(s, i).to_set() == s.intersect(vstd::set_lib::set_int_range(i, 64)),
        ascending_from(s, i).no_duplicates(),
    decreases 64 - i,
{
    let here = s.intersect(vstd::set_lib::set_int_range(i, 64));
    if i == 64 {
        assert(here =~= Set::<int>::empty());
        assert(ascending_from(s, i).to_set() =~= Set::<int>::empty());
    } else {
        lemma_ascending_count(s, i + 1);
        let up = s.intersect(vstd::set_lib::set_int_range(i + 1, 64));
        let rest = ascending_from(s, i + 1);
        assert forall|k: int| 0 <= k < rest.len() implies i + 1 <= #[trigger] rest[k] < 64 by {
            assert(rest.to_set().contains(rest[k]));
        }
        if s.contains(i) {
            assert(here =~= up.insert(i));
            assert(!up.contains(i));
            let whole = ascending_from(s, i);
            assert(whole == seq![i] + rest);
            assert(whole.to_set() =~= here) by {
                assert forall|e: int| #[trigger] whole.to_set().contains(e) == here.contains(e) by {
                    if whole.to_set().contains(e) {
                        let k = choose|k: int| 0 <= k < whole.len() && whole[k] == e;
                        if k > 0 {
                            assert(rest[k - 1] == e);
                            assert(rest.to_set().contains(e));
                        }
                    }
                    if e == i {
                        assert(whole[0] == i);
                        assert(whole.to_set().contains(i));
                    }
                    if here.contains(e) && e != i {
                        assert(up.contains(e));
                        assert(rest.to_set().contains(e));
                        let k = choose|k: int| 0 <= k < rest.len() && rest[k] == e;
                        assert(whole[k + 1] == e);
                    }
                }
            }
            assert forall|a: int, b: int| 0 <= a < b < whole.len() implies whole[a] != whole[b] by {
                if a == 0 {
                    assert(whole[b] == rest[b - 1]);
                } else {
                    assert(whole[a] == rest[a - 1] && whole[b] == rest[b - 1]);
                }
            }
        } else {
            assert(here =~= up);
        }
    }
}

/// For a set of Squares of a board, the ascending order holds each member
/// once.
pub proof fn lemma_ascending_exact(s: Set<int>)
    requires
        s.subset_of(crate::bits::below(64)),
    ensures
        s.finite(),
        ascending(s).len() == s.len(),
        ascending(s).to_set() == s,
        ascending(s).no_duplicates(),
        forall|k: int| 0 <= k < ascending(s).len() ==> s.contains(#[trigger] ascending(s)[k]),
{
    lemma_ascending_count(s, 0);
    assert(s.intersect(vstd::set_lib::set_int_range(0, 64)) =~= s);
    assert forall|k: int| 0 <= k < ascending(s).len() implies s.contains(#[trigger] ascending(s)[k]) by {
        assert(ascending(s).to_set().contains(ascending(s)[k]));
    }
}

/// The members of a set listed in ascending order belong to it.
pub proof fn lemma_ascending_members(s: Set<int>, i: int)
    requires
        0 <= i <= 64,
    ensures
        forall|k: int|
            0 <= k < ascending_from(s, i).len() ==> s.contains(#[trigger] ascending_from(s, i)[k])
                && i <= ascending_from(s, i)[k] < 64,
    decreases 64 - i,
{
    if i < 64 {
        lemma_ascending_members(s, i + 1);
        if s.contains(i) {
            assert forall|k: int| 0 <= k < ascending_from(s, i).len() implies s.contains(
                #[trigger] ascending_from(s, i)[k],
            ) && i <= ascending_from(s, i)[k] < 64 by {
                if k > 0 {
                    assert(ascending_from(s, i)[k] == ascending_from(s, i + 1)[k - 1]);
                }
            }
        } else {
            assert forall|k: int| 0 <= k < ascending_from(s, i).len() implies s.contains(
                #[trigger] ascending_from(s, i)[k],
            ) && i <= ascending_from(s, i)[k] < 64 by {
                assert(ascending_from(s, i)[k] == ascending_from(s, i + 1)[k]);
            }
        }
    }
}

/// BitBoardType is the interface of the BitBoards of boards of any size,
/// over the Squares of their game.
pub trait BitBoardType: SetType<Self::Square> {
    /// The type of the Squares in the BitBoard.
    type Square: SquareType;

    /// The BitBoard containing the Squares of the first File.
    fn first_file() -> (r: Self)
        ensures
            r.members() == file_set(
                0,
                <<Self::Square as SquareType>::File as RepresentableType>::count() as int,
                <Self::Square as RepresentableType>::count() as int,
            ),
    ;

    /// The BitBoard containing the Squares of the first Rank.
    fn first_rank() -> (r: Self)
        ensures
            r.members() == rank_set(
                0,
                <<Self::Square as SquareType>::File as RepresentableType>::count() as int,
                <Self::Square as RepresentableType>::count() as int,
            ),
    ;

    /// Returns the BitBoard with all the Squares shifted to the north.
    fn north(self) -> (r: Self)
        ensures
            r.members() == north_set(
                self.members(),
                <<Self::Square as SquareType>::File as RepresentableType>::count() as int,
                <Self::Square as RepresentableType>::count() as int,
            ),
    ;

    /// Returns the BitBoard with all the Squares shifted to the south.
    fn south(self) -> (r: Self)
        ensures
            r.members() == south_set(
                self.members(),
                <<Self::Square as SquareType>::File as RepresentableType>::count() as int,
            ),
    ;

    /// Returns the BitBoard with all the Squares shifted to the east.
    fn east(self) -> (r: Self)
        ensures
            r.members() == east_set(
                self.members(),
                <<Self::Square as SquareType>::File as RepresentableType>::count() as int,
                <Self::Square as RepresentableType>::count() as int,
            ),
    ;

    /// Returns the BitBoard with all the Squares shifted to the west.
    fn west(self) -> (r: Self)
        ensures
            r.members() == west_set(
                self.members(),
                <<Self::Square as SquareType>::File as RepresentableType>::count() as int,
                <Self::Square as RepresentableType>::count() as int,
            ),
    ;

    /// Returns the BitBoard containing all the Squares of the given File.
    fn file(file: <Self::Square as SquareType>::File) -> (r: Self)
        ensures
            r.members() == file_set(
                file.index() as int,
                <<Self::Square as SquareType>::File as RepresentableType>::count() as int,
                <Self::Square as RepresentableType>::count() as int,
            ),
    ;

    /// Returns the BitBoard containing all the Squares of the given Rank.
    fn rank(rank: <Self::Square as SquareType>::Rank) -> (r: Self)
        ensures
            r.members() == rank_set(
                rank.index() as int,
                <<Self::Square as SquareType>::File as RepresentableType>::count() as int,
                <Self::Square as RepresentableType>::count() as int,
            ),
    ;
}

} // verus!
