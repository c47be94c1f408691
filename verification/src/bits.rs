//! Bit-level model of a `u64` as a set of bit indices, the lemmas that
//! connect the bitwise operators to set operations, and the std bit-counting
//! primitives that the board code relies on.
use vstd::prelude::*;
use vstd::set_lib::set_int_range;
use vstd::std_specs::bits::u64_trailing_zeros;

verus! {

/// Bit `i` of `x` is set.
pub open spec fn bit(x: u64, i: int) -> bool {
    0 <= i < 64 && ((x >> (i as u64)) & 1u64) == 1u64
}

/// The set of indices of the set bits of `x`.
pub open spec fn bits(x: u64) -> Set<int> {
    Set::new(|i: int| bit(x, i))
}

/// The indices `0..n`.
pub open spec fn below(n: int) -> Set<int> {
    set_int_range(0, n)
}

/// The symmetric difference of two sets.
pub open spec fn sym(a: Set<int>, b: Set<int>) -> Set<int> {
    a.union(b).difference(a.intersect(b))
}

/// Bit facts about the bitwise operators, for every index.
pub proof fn lemma_bit_ops(x: u64, y: u64)
    ensures
        forall|i: int| #[trigger] bit(x | y, i) == (bit(x, i) || bit(y, i)),
        forall|i: int| #[trigger] bit(x & y, i) == (bit(x, i) && bit(y, i)),
        forall|i: int| #[trigger] bit(x ^ y, i) == (bit(x, i) != bit(y, i)),
        forall|i: int| #[trigger] bit(!x, i) == (0 <= i < 64 && !bit(x, i)),
{
    assert(forall|i: u64|
        #![trigger (x | y) >> i]
        i < 64 ==> ((((x | y) >> i) & 1u64) == 1u64) == ((((x >> i) & 1u64) == 1u64) || (((y >> i)
            & 1u64) == 1u64))) by (bit_vector);
    assert(forall|i: u64|
        #![trigger (x & y) >> i]
        i < 64 ==> ((((x & y) >> i) & 1u64) == 1u64) == ((((x >> i) & 1u64) == 1u64) && (((y >> i)
            & 1u64) == 1u64))) by (bit_vector);
    assert(forall|i: u64|
        #![trigger (x ^ y) >> i]
        i < 64 ==> ((((x ^ y) >> i) & 1u64) == 1u64) == ((((x >> i) & 1u64) == 1u64) != (((y >> i)
            & 1u64) == 1u64))) by (bit_vector);
    assert(forall|i: u64|
        #![trigger (!x) >> i]
        i < 64 ==> ((((!x) >> i) & 1u64) == 1u64) == !(((x >> i) & 1u64) == 1u64)) by (bit_vector);
}

/// Bit facts about the shift operators.
pub proof fn lemma_bit_shifts(x: u64, k: u64)
    requires
        k < 64,
    ensures
        forall|i: int| #[trigger] bit(x << k, i) == (k <= i < 64 && bit(x, i - k)),
        forall|i: int| #[trigger] bit(x >> k, i) == (0 <= i && i + k < 64 && bit(x, i + k)),
{
    assert(forall|i: u64|
        #![trigger (x << k) >> i]
        i < 64 ==> ((((x << k) >> i) & 1u64) == 1u64) == (k <= i && (((x >> ((i - k) as u64)) & 1u64)
            == 1u64))) by (bit_vector)
        requires
            k < 64,
    ;
    assert(forall|i: u64|
        #![trigger (x >> k) >> i]
        i < 64 ==> ((((x >> k) >> i) & 1u64) == 1u64) == (i + k < 64 && (((x >> ((i + k) as u64))
            & 1u64) == 1u64))) by (bit_vector)
        requires
            k < 64,
    ;
    assert forall|i: int| #[trigger] bit(x << k, i) == (k <= i < 64 && bit(x, i - k)) by {
        if 0 <= i < 64 {
            let j = i as u64;
            assert((((x << k) >> j) & 1u64) == 1u64 <==> (k <= j && (((x >> ((j - k) as u64))
                & 1u64) == 1u64)));
        }
    }
    assert forall|i: int| #[trigger] bit(x >> k, i) == (0 <= i && i + k < 64 && bit(x, i + k)) by {
        if 0 <= i < 64 {
            let j = i as u64;
            assert((((x >> k) >> j) & 1u64) == 1u64 <==> (j + k < 64 && (((x >> ((j + k) as u64))
                & 1u64) == 1u64)));
        }
    }
}

/// The bits of the constants built from shifts of one.
pub proof fn lemma_bit_consts()
    ensures
        forall|i: int| !#[trigger] bit(0u64, i),
        forall|i: int| #[trigger] bit(!0u64, i) == (0 <= i < 64),
        forall|k: u64, i: int| k < 64 ==> #[trigger] bit(1u64 << k, i) == (i == k),
        forall|k: u64, i: int|
            k < 64 ==> #[trigger] bit(((1u64 << k) - 1u64) as u64, i) == (0 <= i < k),
{
    assert(forall|i: u64| #![trigger 0u64 >> i] ((0u64 >> i) & 1u64) != 1u64) by (bit_vector);
    assert(forall|i: u64| #![trigger (!0u64) >> i] i < 64 ==> (((!0u64) >> i) & 1u64) == 1u64)
        by (bit_vector);
    assert(forall|k: u64, i: u64|
        #![trigger (1u64 << k) >> i]
        k < 64 && i < 64 ==> ((((1u64 << k) >> i) & 1u64) == 1u64) == (i == k)) by (bit_vector);
    assert(forall|k: u64, i: u64|
        #![trigger (((1u64 << k) - 1u64) as u64) >> i]
        k < 64 && i < 64 ==> (((((1u64 << k) - 1u64) as u64 >> i) & 1u64) == 1u64) == (i < k))
        by (bit_vector);
    assert forall|k: u64, i: int| k < 64 implies #[trigger] bit(1u64 << k, i) == (i == k) by {
        if 0 <= i < 64 {
            let j = i as u64;
            assert(((((1u64 << k) >> j) & 1u64) == 1u64) == (j == k));
        }
    }
    assert forall|k: u64, i: int| k < 64 implies #[trigger] bit(((1u64 << k) - 1u64) as u64, i)
        == (0 <= i < k) by {
        if 0 <= i < 64 {
            let j = i as u64;
            assert((((((1u64 << k) - 1u64) as u64 >> j) & 1u64) == 1u64) == (j < k));
        }
    }
    assert forall|i: int| #[trigger] bit(!0u64, i) == (0 <= i < 64) by {
        if 0 <= i < 64 {
            let j = i as u64;
            assert((((!0u64) >> j) & 1u64) == 1u64);
        }
    }
}

/// Two words with the same bits are equal.
pub proof fn lemma_bits_ext(x: u64, y: u64)
    requires
        forall|i: int| 0 <= i < 64 ==> #[trigger] bit(x, i) == bit(y, i),
    ensures
        x == y,
{
    if x != y {
        let z = x ^ y;
        assert(z != 0u64) by (bit_vector)
            requires
                x != y,
                z == x ^ y,
        ;
        vstd::std_specs::bits::axiom_u64_trailing_zeros(z);
        let t = u64_trailing_zeros(z);
        assert(t < 64);
        assert(((z >> (t as u64)) & 1u64) == 1u64);
        lemma_bit_ops(x, y);
        assert(bit(z, t as int));
        assert(bit(x, t as int) != bit(y, t as int));
    }
}

/// Two words with the same set of bits are equal.
pub proof fn lemma_bits_eq(x: u64, y: u64)
    requires
        bits(x) == bits(y),
    ensures
        x == y,
{
    assert forall|i: int| 0 <= i < 64 implies #[trigger] bit(x, i) == bit(y, i) by {
        assert(bit(x, i) == bits(x).contains(i));
        assert(bit(y, i) == bits(y).contains(i));
    }
    lemma_bits_ext(x, y);
}

/// The set of bits is a finite subset of `0..64`.
pub proof fn lemma_bits_finite(x: u64)
    ensures
        bits(x).subset_of(below(64)),
        bits(x).finite(),
        bits(x).len() <= 64,
{
    vstd::set_lib::lemma_int_range(0, 64);
    vstd::set_lib::lemma_len_subset(bits(x), below(64));
}

/// Set view of the bitwise operators.
pub proof fn lemma_bits_ops(x: u64, y: u64)
    ensures
        bits(x | y) == bits(x).union(bits(y)),
        bits(x & y) == bits(x).intersect(bits(y)),
        bits(x ^ y) == bits(x).union(bits(y)).difference(bits(x).intersect(bits(y))),
        bits(x & !y) == bits(x).difference(bits(y)),
        bits(!x) == below(64).difference(bits(x)),
{
    lemma_bit_ops(x, y);
    lemma_bit_ops(x, !y);
    lemma_bit_ops(y, x);
    assert(bits(x | y) =~= bits(x).union(bits(y)));
    assert(bits(x & y) =~= bits(x).intersect(bits(y)));
    assert(bits(x ^ y) =~= bits(x).union(bits(y)).difference(bits(x).intersect(bits(y))));
    assert(bits(x & !y) =~= bits(x).difference(bits(y)));
    assert(bits(!x) =~= below(64).difference(bits(x)));
}

/// The word with the lowest set bit cleared.
pub proof fn lemma_clear_lowest(x: u64)
    requires
        x != 0,
    ensures
        u64_trailing_zeros(x) < 64,
        bit(x, u64_trailing_zeros(x) as int),
        forall|j: int| 0 <= j < u64_trailing_zeros(x) ==> !#[trigger] bit(x, j),
        bits(x & ((x - 1u64) as u64)) == bits(x).remove(u64_trailing_zeros(x) as int),
{
    vstd::std_specs::bits::axiom_u64_trailing_zeros(x);
    let t = u64_trailing_zeros(x) as u64;
    assert(t < 64);
    let y = (x & ((x - 1u64) as u64)) as u64;
    assert(forall|j: u64|
        #![trigger y >> j]
        j < 64 ==> (((y >> j) & 1u64) == 1u64) == (j != t && (((x >> j) & 1u64) == 1u64)))
        by (bit_vector)
        requires
            x != 0u64,
            t < 64u64,
            ((x >> t) & 1u64) == 1u64,
            x << ((64u64 - t) as u64) == 0u64,
            y == x & ((x - 1u64) as u64),
    ;
    assert forall|j: int| 0 <= j < t implies !#[trigger] bit(x, j) by {
        let k = j as u64;
        assert((x >> k) & 1u64 == 0u64);
    }
    assert forall|j: int| #[trigger] bits(y).contains(j) == bits(x).remove(t as int).contains(j) by {
        if 0 <= j < 64 {
            let k = j as u64;
            assert((((y >> k) & 1u64) == 1u64) == (k != t && (((x >> k) & 1u64) == 1u64)));
        }
    }
    assert(bits(y) =~= bits(x).remove(t as int));
}

/// The lowest set bit is the least element of the set of bits.
pub open spec fn lowest(x: u64) -> int {
    u64_trailing_zeros(x) as int
}

/// `count_ones` from std: the number of set bits.
#[verifier::external_body]
pub(crate) fn count_ones(x: u64) -> (r: u32)
    ensures
        r as int == bits(x).len(),
{
    x.count_ones()
}

} // verus!

verus! {

/// The fields of a packed 16-bit move: 6 bits, 6 bits and 4 bits.
pub proof fn lemma_u16_fields(x: u16)
    ensures
        x & 63u16 == x % 64,
        (x >> 6u16) & 63u16 == (x / 64) % 64,
        (x >> 12u16) & 15u16 == x / 4096,
        (x >> 0u16) & 63u16 == x % 64,
{
    assert((x >> 0u16) & 63u16 == x % 64 && x & 63u16 == x % 64 && (x >> 6u16) & 63u16 == (x / 64) % 64 && (x >> 12u16) & 15u16 == x
        / 4096) by (bit_vector);
}

/// Packing three fields of 6, 6 and 4 bits into 16 bits.
pub proof fn lemma_u16_pack(a: u16, b: u16, c: u16)
    requires
        a < 64,
        b < 64,
        c < 16,
    ensures
        (c << 12u16) | (a << 0u16) | (b << 6u16) == a + 64 * b + 4096 * c,
        (a << 0u16) | (b << 6u16) == a + 64 * b,
{
    assert((c << 12u16) | (a << 0u16) | (b << 6u16) == a + 64 * b + 4096 * c && (a << 0u16) | (b
        << 6u16) == a + 64 * b) by (bit_vector)
        requires
            a < 64,
            b < 64,
            c < 16,
    ;
}

} // verus!

verus! {

/// Complementing twice gives the word back.
pub proof fn lemma_not_not(x: u64)
    ensures
        !(!x) == x,
{
    assert(!(!x) == x) by (bit_vector);
}

} // verus!
