//! Position checksums.
use vstd::prelude::*;

verus! {

/// Hash represents the semi-unique checksum of a Position used to efficiently
/// check for Position equality.
#[derive(Clone, Copy, PartialEq, Eq, Debug, Hash, Structural)]
pub struct Hash(u64);

impl Hash {
    /// The raw value of the Hash.
    pub closed spec fn value(self) -> u64 {
        self.0
    }

    /// new creates a new Hash value from a raw u64.
    pub fn new(raw: u64) -> (r: Hash)
        ensures
            r.value() == raw,
    {
        Hash(raw)
    }

    /// The zero Hash, the default value.
    pub fn zero() -> (r: Hash)
        ensures
            r.value() == 0,
    {
        Hash(0)
    }

    /// Returns the raw value of the Hash.
    pub fn raw(self) -> (r: u64)
        ensures
            r == self.value(),
    {
        self.0
    }

    /// Switches the side to move of the Hash: every bit is complemented.
    pub fn flip(self) -> (r: Hash)
        ensures
            r.value() == !self.value(),
    {
        Hash(!self.0)
    }
}

} // verus!

verus! {

/// The first multiplier of the hash function.
pub const HASH_X: u64 = 6364136223846793005;
/// The second multiplier of the hash function.
pub const HASH_Y: u64 = 1442695040888963407;
/// The third multiplier of the hash function.
pub const HASH_Z: u64 = 2305843009213693951;

/// 2^64.
pub open spec fn word() -> int {
    0x10000000000000000
}

/// The 2^-63-almost delta universal hash of the pair `(a, b)`, after Nguyen
/// and Roscoe: `xa + yb + floor(ya / 2^64) + floor(zb / 2^64)` modulo 2^64.
pub open spec fn pair_hash(a: u64, b: u64) -> u64 {
    ((HASH_X * a + HASH_Y * b + (HASH_Y * a) / word() + (HASH_Z * b) / word()) % word()) as u64
}

/// Computes the hash of the pair `(a, b)`.
#[verifier::spinoff_prover]
#[verifier::rlimit(30)]
pub fn hash_pair(a: u64, b: u64) -> (r: u64)
    ensures
        r == pair_hash(a, b),
{
    let part_1 = HASH_X.wrapping_mul(a);
    let part_2 = HASH_Y.wrapping_mul(b);
    proof {
        assert(0 <= (HASH_Y as int) * (a as int) <= 0xffffffffffffffff * 0xffffffffffffffff)
            by (nonlinear_arith);
        assert(0 <= (HASH_Z as int) * (b as int) <= 0xffffffffffffffff * 0xffffffffffffffff)
            by (nonlinear_arith);
    }
    let wide_3 = (HASH_Y as u128) * (a as u128);
    let wide_4 = (HASH_Z as u128) * (b as u128);
    let part_3 = (wide_3 >> 64u128) as u64;
    let part_4 = (wide_4 >> 64u128) as u64;
    proof {
        vstd::bits::lemma_u128_shr_is_div(wide_3, 64);
        vstd::bits::lemma_u128_shr_is_div(wide_4, 64);
        vstd::arithmetic::power2::lemma2_to64();
        assert((wide_3 as int) / word() < word()) by (nonlinear_arith)
            requires
                wide_3 <= 0xffffffffffffffff * 0xffffffffffffffff,
        ;
        assert((wide_4 as int) / word() < word()) by (nonlinear_arith)
            requires
                wide_4 <= 0xffffffffffffffff * 0xffffffffffffffff,
        ;
    }
    let s1 = part_1.wrapping_add(part_2);
    let s2 = s1.wrapping_add(part_3);
    let s3 = s2.wrapping_add(part_4);
    proof {
        let m = word();
        let p1 = (HASH_X as int) * (a as int);
        let p2 = (HASH_Y as int) * (b as int);
        let p3 = (wide_3 as int) / m;
        let p4 = (wide_4 as int) / m;
        assert(part_1 as int == p1 % m);
        assert(part_2 as int == p2 % m);
        assert(part_3 as int == p3 % m) by {
            vstd::arithmetic::div_mod::lemma_small_mod(p3 as nat, m as nat);
        }
        assert(part_4 as int == p4 % m) by {
            vstd::arithmetic::div_mod::lemma_small_mod(p4 as nat, m as nat);
        }
        assert(s1 as int == (part_1 as int + part_2 as int) % m);
        assert(s2 as int == (s1 as int + part_3 as int) % m);
        assert(s3 as int == (s2 as int + part_4 as int) % m);
        vstd::arithmetic::div_mod::lemma_add_mod_noop(p1, p2, m);
        vstd::arithmetic::div_mod::lemma_add_mod_noop(p1 + p2, p3, m);
        vstd::arithmetic::div_mod::lemma_add_mod_noop(p1 + p2 + p3, p4, m);
        vstd::arithmetic::div_mod::lemma_mod_twice(p1 + p2, m);
        assert(s1 as int == (p1 + p2) % m);
        assert(s2 as int == (p1 + p2 + p3) % m) by {
            vstd::arithmetic::div_mod::lemma_add_mod_noop(p1 + p2, p3, m);
            vstd::arithmetic::div_mod::lemma_mod_twice(p3, m);
        }
        assert(s3 as int == (p1 + p2 + p3 + p4) % m) by {
            vstd::arithmetic::div_mod::lemma_mod_twice(p4, m);
        }
    }
    s3
}

/// The upper-case hexadecimal digit of a value below 16.
pub open spec fn hex_digit(d: int) -> char {
    if d < 10 {
        ('0' as int + d) as char
    } else {
        ('A' as int + d - 10) as char
    }
}

/// The upper-case hexadecimal digits of `v`, without leading zeros.
pub open spec fn hex_digits(v: nat) -> Seq<char>
    decreases v,
{
    if v < 16 {
        seq![hex_digit(v as int)]
    } else {
        hex_digits(v / 16) + seq![hex_digit((v % 16) as int)]
    }
}

/// Appends the upper-case hexadecimal digits of `v`.
fn push_hex(out: &mut Vec<char>, v: u64)
    ensures
        final(out)@ == old(out)@ + hex_digits(v as nat),
    decreases v,
{
    if v >= 16 {
        push_hex(out, v / 16);
    }
    let d = (v % 16) as u8;
    let c = if d < 10 {
        ('0' as u8 + d) as char
    } else {
        ('A' as u8 + d - 10) as char
    };
    out.push(c);
    proof {
        if v >= 16 {
            assert(out@ =~= old(out)@ + hex_digits(v as nat));
        } else {
            assert(out@ =~= old(out)@ + hex_digits(v as nat));
        }
    }
}

impl Hash {
    /// The Hash in a human-readable form: `0x` and its value in upper-case
    /// hexadecimal digits.
    pub fn to_string(self) -> (r: String)
        ensures
            r@ == seq!['0', 'x'] + hex_digits(self.value() as nat),
    {
        let mut out: Vec<char> = Vec::new();
        out.push('0');
        out.push('x');
        push_hex(&mut out, self.0);
        proof {
            assert(out@ =~= seq!['0', 'x'] + hex_digits(self.value() as nat));
        }
        crate::interface::parse::string_of(out.as_slice())
    }
}

} // verus!
