//! QUIC variable-length integers.
//!
//! A varint is an unsigned integer below `2^62` stored on the wire in 1, 2, 4
//! or 8 bytes. The two most significant bits of the first byte hold the
//! base-2 logarithm of the encoded length; the remaining bits, big-endian,
//! hold the value.

use vstd::prelude::*;
use vstd::arithmetic::div_mod::lemma_breakdown;
use vstd::arithmetic::div_mod::lemma_div_denominator;
use vstd::arithmetic::div_mod::lemma_fundamental_div_mod;
use vstd::arithmetic::div_mod::lemma_fundamental_div_mod_converse;
use vstd::arithmetic::div_mod::lemma_mod_division_less_than_divisor;
use vstd::arithmetic::div_mod::lemma_mod_multiples_vanish;
use vstd::arithmetic::div_mod::lemma_multiply_divide_lt;
use vstd::arithmetic::div_mod::lemma_small_mod;
use vstd::arithmetic::mul::lemma_mul_inequality;
use vstd::arithmetic::mul::lemma_mul_is_associative;

verus! {

/// Largest value a varint can carry: `2^62 - 1`.
pub const MAX_VARINT_VALUE: u64 = 0x3fff_ffff_ffff_ffff;

/// `256^n`.
pub open spec fn pow256(n: nat) -> nat
    decreases n,
{
    if n == 0 {
        1
    } else {
        256 * pow256((n - 1) as nat)
    }
}

/// The value of a byte string read as a big-endian base-256 number.
pub open spec fn bytes_be_value(s: Seq<u8>) -> nat
    decreases s.len(),
{
    if s.len() == 0 {
        0
    } else {
        bytes_be_value(s.drop_last()) * 256 + s.last() as nat
    }
}

/// The `n`-byte big-endian representation of `v % 256^n`.
pub open spec fn bytes_be_of(v: nat, n: nat) -> Seq<u8>
    decreases n,
{
    if n == 0 {
        Seq::empty()
    } else {
        bytes_be_of(v / 256, (n - 1) as nat).push((v % 256) as u8)
    }
}

/// Encoded length of a varint, determined by the two high bits of its first
/// byte.
pub open spec fn varint_len(first_byte: u8) -> nat {
    if first_byte < 0x40 {
        1
    } else if first_byte < 0x80 {
        2
    } else if first_byte < 0xc0 {
        4
    } else {
        8
    }
}

/// Length of the canonical (shortest) encoding of a value.
pub open spec fn varint_size_of(v: u64) -> nat {
    if v < 0x40 {
        1
    } else if v < 0x4000 {
        2
    } else if v < 0x4000_0000 {
        4
    } else {
        8
    }
}

/// Value encoded by a varint byte string: the first byte with its two tag
/// bits cleared, followed by the remaining bytes, read big-endian.
pub open spec fn varint_value(s: Seq<u8>) -> nat {
    bytes_be_value(s.update(0, (s[0] as nat % 64) as u8))
}

/// Canonical encoding of a value: the shortest length whose tag bits, set in
/// the first byte, leave room for the value.
pub open spec fn varint_bytes(v: u64) -> Seq<u8> {
    if v < 0x40 {
        bytes_be_of(v as nat, 1)
    } else if v < 0x4000 {
        bytes_be_of(v as nat + 0x4000, 2)
    } else if v < 0x4000_0000 {
        bytes_be_of(v as nat + 0x8000_0000, 4)
    } else {
        bytes_be_of(v as nat + 0xc000_0000_0000_0000, 8)
    }
}

pub proof fn lemma_pow256_pos(n: nat)
    ensures
        pow256(n) >= 1,
    decreases n,
{
    if n > 0 {
        lemma_pow256_pos((n - 1) as nat);
        lemma_mul_inequality(1, pow256((n - 1) as nat) as int, 256);
    }
}

pub proof fn lemma_pow256_increases(a: nat, b: nat)
    requires
        a <= b,
    ensures
        pow256(a) <= pow256(b),
    decreases b,
{
    if a < b {
        lemma_pow256_increases(a, (b - 1) as nat);
        lemma_pow256_pos((b - 1) as nat);
        lemma_mul_inequality(1, 256, pow256((b - 1) as nat) as int);
    }
}

pub proof fn lemma_bytes_be_of_len(v: nat, n: nat)
    ensures
        bytes_be_of(v, n).len() == n,
    decreases n,
{
    if n > 0 {
        lemma_bytes_be_of_len(v / 256, (n - 1) as nat);
    }
}

/// Reading back the `n`-byte representation of `v` yields `v % 256^n`.
pub proof fn lemma_bytes_be_value_of(v: nat, n: nat)
    ensures
        bytes_be_value(bytes_be_of(v, n)) == v % pow256(n),
    decreases n,
{
    if n == 0 {
        lemma_mod_division_less_than_divisor(v as int, 1);
    } else {
        let p = pow256((n - 1) as nat);
        let s = bytes_be_of(v, n);
        lemma_bytes_be_value_of(v / 256, (n - 1) as nat);
        lemma_bytes_be_of_len(v / 256, (n - 1) as nat);
        assert(s.drop_last() =~= bytes_be_of(v / 256, (n - 1) as nat));
        lemma_pow256_pos((n - 1) as nat);
        lemma_breakdown(v as int, 256, p as int);
        assert(bytes_be_value(s) == ((v / 256) % p) * 256 + v % 256);
        assert(v % (256 * p) == 256 * ((v / 256) % p) + v % 256);
    }
}

/// Each byte of the representation is a base-256 digit of the value.
pub proof fn lemma_bytes_be_of_index(v: nat, n: nat, i: int)
    requires
        0 <= i < n,
    ensures
        bytes_be_of(v, n)[i] == ((v / pow256((n - 1 - i) as nat)) % 256) as u8,
    decreases n,
{
    lemma_bytes_be_of_len(v / 256, (n - 1) as nat);
    if i == n - 1 {
        assert(pow256(0) == 1);
        assert(v / 1 == v);
        assert(bytes_be_of(v, n)[i] == (v % 256) as u8);
    } else {
        lemma_bytes_be_of_index(v / 256, (n - 1) as nat, i);
        let p = pow256((n - 2 - i) as nat);
        lemma_pow256_pos((n - 2 - i) as nat);
        lemma_div_denominator(v as int, 256, p as int);
        assert(pow256((n - 1 - i) as nat) == 256 * p);
        assert(bytes_be_of(v, n)[i] == bytes_be_of(v / 256, (n - 1) as nat)[i]);
    }
}

/// The leading byte carries the top base-256 digit.
pub proof fn lemma_bytes_be_value_first(s: Seq<u8>)
    requires
        s.len() >= 1,
    ensures
        bytes_be_value(s) == s[0] as nat * pow256((s.len() - 1) as nat) + bytes_be_value(
            s.skip(1),
        ),
    decreases s.len(),
{
    if s.len() == 1 {
        assert(s.drop_last() =~= Seq::<u8>::empty());
        assert(s.skip(1) =~= Seq::<u8>::empty());
        assert(bytes_be_value(Seq::<u8>::empty()) == 0);
        assert(s.last() == s[0]);
        assert(bytes_be_value(s) == s[0] as nat);
        assert(pow256(0) == 1);
        assert(bytes_be_value(s) == s[0] as nat * pow256((s.len() - 1) as nat) + bytes_be_value(
            s.skip(1),
        ));
    } else {
        let d = s.drop_last();
        lemma_bytes_be_value_first(d);
        assert(d.skip(1) =~= s.skip(1).drop_last());
        assert(s.skip(1).last() == s.last());
        let p2 = pow256((s.len() - 2) as nat);
        assert(bytes_be_value(s) == (s[0] as nat * p2 + bytes_be_value(d.skip(1))) * 256
            + s.last() as nat);
        lemma_mul_is_associative(s[0] as int, p2 as int, 256);
        assert(pow256((s.len() - 1) as nat) == 256 * p2);
        assert(bytes_be_value(s.skip(1)) == bytes_be_value(s.skip(1).drop_last()) * 256 + s.skip(
            1,
        ).last() as nat);
        assert(bytes_be_value(s.skip(1)) == bytes_be_value(d.skip(1)) * 256 + s.last() as nat);
        assert(s[0] as nat * pow256((s.len() - 1) as nat) == (s[0] as nat * p2) * 256);
        assert(bytes_be_value(s) == (s[0] as nat * p2) * 256 + bytes_be_value(d.skip(1)) * 256
            + s.last() as nat);
        assert(bytes_be_value(s) == s[0] as nat * pow256((s.len() - 1) as nat) + bytes_be_value(
            s.skip(1),
        ));
    }
}

pub proof fn lemma_bytes_be_value_bound(s: Seq<u8>)
    ensures
        bytes_be_value(s) < pow256(s.len()),
    decreases s.len(),
{
    if s.len() > 0 {
        lemma_bytes_be_value_bound(s.drop_last());
        lemma_pow256_pos((s.len() - 1) as nat);
        assert(pow256(s.len()) == 256 * pow256((s.len() - 1) as nat));
    }
}

/// Core of the canonical-encoding proof, for one length class: with `v`
/// below the class capacity and the tag folded in as a multiple of
/// `64 * 256^(n-1)`, the representation starts with the tag bits over the top
/// value digit, and masking them off recovers `v`.
proof fn lemma_encode_decode_core(v: nat, tag: nat, n: nat)
    requires
        n >= 1,
        tag < 4,
        v < 64 * pow256((n - 1) as nat),
    ensures
        ({
            let p = pow256((n - 1) as nat);
            let s = bytes_be_of(v + tag * 64 * p, n);
            &&& s.len() == n
            &&& v / p < 64
            &&& s[0] == (tag * 64 + v / p) as u8
            &&& s[0] as nat == tag * 64 + v / p
            &&& bytes_be_value(s.update(0, (s[0] as nat % 64) as u8)) == v
        }),
{
    let p = pow256((n - 1) as nat);
    lemma_pow256_pos((n - 1) as nat);
    let x = v + tag * 64 * p;
    let s = bytes_be_of(x, n);
    lemma_bytes_be_of_len(x, n);

    let q = v / p;
    let r = v % p;
    lemma_fundamental_div_mod(v as int, p as int);
    lemma_mod_division_less_than_divisor(v as int, p as int);
    assert(q < 64) by {
        lemma_multiply_divide_lt(v as int, p as int, 64);
        assert(p * 64 == 64 * p) by (nonlinear_arith);
    }
    let f = tag * 64 + q;
    assert(x == f * p + r) by (nonlinear_arith)
        requires
            v == p * q + r,
            x == v + tag * 64 * p,
            f == tag * 64 + q,
    ;
    assert(f < 256);
    assert(x / p == f && x % p == r) by {
        lemma_fundamental_div_mod_converse(x as int, p as int, f as int, r as int);
    }

    // The whole number fits in n bytes.
    assert(x < 256 * p) by (nonlinear_arith)
        requires
            x == f * p + r,
            f < 256,
            r < p,
            p >= 1,
    ;
    assert(pow256(n) == 256 * p);
    lemma_bytes_be_value_of(x, n);
    lemma_small_mod(x, pow256(n));
    assert(bytes_be_value(s) == x);

    // First byte: tag bits over the top digit of v.
    lemma_bytes_be_of_index(x, n, 0);
    lemma_small_mod(f, 256);
    assert(s[0] as nat == f);

    // Masking the tag bits off the first byte leaves the top digit of v.
    lemma_mod_multiples_vanish(tag as int, q as int, 64);
    lemma_small_mod(q, 64);
    assert((s[0] as nat % 64) == q);

    let s2 = s.update(0, q as u8);
    assert(s2.len() == n);
    assert(s2[0] as nat == q);
    lemma_bytes_be_value_first(s2);
    lemma_bytes_be_value_first(s);
    assert(s2.skip(1) =~= s.skip(1));
    assert(bytes_be_value(s) == f * p + bytes_be_value(s.skip(1)));
    assert(bytes_be_value(s2) == q * p + bytes_be_value(s.skip(1)));
    assert(bytes_be_value(s.skip(1)) == x - f * p);
    assert(x - f * p == r);
    assert(bytes_be_value(s2) == q * p + r);
    assert(q * p + r == v) by (nonlinear_arith)
        requires
            v == p * q + r,
    ;
}

/// The concrete powers the four length classes use.
pub proof fn lemma_pow256_values()
    ensures
        pow256(0) == 1,
        pow256(1) == 256,
        pow256(3) == 0x100_0000,
        pow256(6) == 0x1_0000_0000_0000,
        pow256(7) == 0x100_0000_0000_0000,
{
    assert(pow256(0) == 1);
    assert(pow256(1) == 256);
    assert(pow256(2) == 0x1_0000);
    assert(pow256(3) == 0x100_0000);
    assert(pow256(4) == 0x1_0000_0000);
    assert(pow256(5) == 0x100_0000_0000);
    assert(pow256(6) == 0x1_0000_0000_0000);
    assert(pow256(7) == 0x100_0000_0000_0000);
}

/// The canonical encoding of a value in range has the canonical length, a
/// first byte whose tag bits announce exactly that length, and decodes back
/// to the value.
pub proof fn lemma_varint_bytes_props(v: u64)
    requires
        v <= MAX_VARINT_VALUE,
    ensures
        varint_bytes(v).len() == varint_size_of(v),
        varint_len(varint_bytes(v)[0]) == varint_size_of(v),
        varint_value(varint_bytes(v)) == v as nat,
{
    lemma_pow256_values();
    if v < 0x40 {
        lemma_encode_decode_core(v as nat, 0, 1);
        assert(v as nat + 0 * 64 * pow256(0) == v as nat);
    } else if v < 0x4000 {
        lemma_encode_decode_core(v as nat, 1, 2);
        assert(v as nat + 1 * 64 * pow256(1) == v + 0x4000);
    } else if v < 0x4000_0000 {
        lemma_encode_decode_core(v as nat, 2, 4);
        assert(v as nat + 2 * 64 * pow256(3) == v + 0x8000_0000);
    } else {
        lemma_encode_decode_core(v as nat, 3, 8);
        assert(v as nat + 3 * 64 * pow256(7) == v + 0xc000_0000_0000_0000);
    }
}

/// Any byte string whose length matches its first byte's announcement
/// decodes to a value in varint range.
pub proof fn lemma_varint_value_bound(s: Seq<u8>)
    requires
        s.len() >= 1,
        s.len() == varint_len(s[0]),
    ensures
        varint_value(s) <= MAX_VARINT_VALUE as nat,
{
    lemma_pow256_values();
    let m = (s[0] as nat % 64) as u8;
    let s2 = s.update(0, m);
    lemma_bytes_be_value_first(s2);
    lemma_bytes_be_value_bound(s2.skip(1));
    assert(s2.skip(1).len() == s.len() - 1);
    let p = pow256((s.len() - 1) as nat);
    assert(m as nat * p <= 63 * p) by (nonlinear_arith)
        requires
            m as nat <= 63,
            p >= 0,
    ;
    assert(varint_value(s) < 64 * p);
}

/// An unsigned integer in `[0, 2^62 - 1]`, the range the wire encoding can
/// carry.
#[derive(Clone, Copy, Debug, PartialEq, Eq, Structural)]
pub struct VarInt {
    value: u64,
}

impl View for VarInt {
    type V = u64;

    closed spec fn view(&self) -> u64 {
        self.value
    }
}

impl VarInt {
    /// Largest number of bytes an encoded varint can take.
    pub const MAX_SIZE: usize = 8;

    #[verifier::type_invariant]
    pub open spec fn inv(self) -> bool {
        self@ <= MAX_VARINT_VALUE
    }

    /// Number of bytes of the whole encoding, read off the first byte alone.
    pub fn parse_size(first_byte: u8) -> (r: usize)
        ensures
            r == varint_len(first_byte),
    {
        if first_byte < 0x40 {
            1
        } else if first_byte < 0x80 {
            2
        } else if first_byte < 0xc0 {
            4
        } else {
            8
        }
    }

    /// Builds a varint from a 32-bit value, which always fits.
    pub fn from_u32(value: u32) -> (r: VarInt)
        ensures
            r@ == value,
    {
        VarInt { value: value as u64 }
    }

    /// Builds a varint from a 64-bit value if it is within range.
    pub fn try_from_u64(value: u64) -> (r: Option<VarInt>)
        ensures
            value <= MAX_VARINT_VALUE ==> (r matches Some(v) && v@ == value),
            value > MAX_VARINT_VALUE ==> r is None,
    {
        if value <= MAX_VARINT_VALUE {
            Some(VarInt { value })
        } else {
            None
        }
    }

    /// The carried value.
    pub fn into_inner(self) -> (r: u64)
        ensures
            r == self@,
    {
        self.value
    }

    /// Length of this value's canonical encoding.
    pub fn size(&self) -> (r: usize)
        ensures
            r == varint_size_of(self@),
    {
        if self.value < 0x40 {
            1
        } else if self.value < 0x4000 {
            2
        } else if self.value < 0x4000_0000 {
            4
        } else {
            8
        }
    }

    /// Decodes a complete varint byte string: exactly the bytes whose count
    /// the first byte announces.
    pub fn decode(bytes: &[u8]) -> (r: VarInt)
        requires
            bytes@.len() == varint_len(bytes@[0]),
        ensures
            r@ == varint_value(bytes@),
    {
        let len = bytes.len();
        let first = bytes[0];
        let masked = first & 0x3f;
        proof {
            assert(first & 0x3f == first % 64) by (bit_vector);
        }
        let ghost t = bytes@.update(0, (bytes@[0] as nat % 64) as u8);
        let mut val: u64 = masked as u64;
        let mut i: usize = 1;
        proof {
            assert(t.take(1).drop_last() =~= Seq::<u8>::empty());
            assert(bytes_be_value(Seq::<u8>::empty()) == 0);
            assert(t.take(1).last() == t[0]);
            assert(val as nat == bytes_be_value(t.take(1)));
            assert(pow256(0) == 1);
        }
        while i < len
            invariant
                1 <= i <= len,
                len == bytes@.len(),
                t == bytes@.update(0, (bytes@[0] as nat % 64) as u8),
                len == varint_len(bytes@[0]),
                val as nat == bytes_be_value(t.take(i as int)),
                val < 64 * pow256((i - 1) as nat),
            decreases len - i,
        {
            proof {
                lemma_pow256_increases((i - 1) as nat, 6);
                lemma_pow256_values();
                assert(64 * pow256((i - 1) as nat) <= 64 * pow256(6)) by (nonlinear_arith)
                    requires
                        pow256((i - 1) as nat) <= pow256(6),
                ;
            }
            let b = bytes[i];
            val = val * 256 + b as u64;
            proof {
                assert(t.take(i + 1).drop_last() =~= t.take(i as int));
                assert(t.take(i + 1).last() == t[i as int]);
                assert(t[i as int] == bytes@[i as int]);
                assert(val as nat == bytes_be_value(t.take(i + 1)));
                assert(64 * pow256(i as nat) == 64 * (256 * pow256((i - 1) as nat)));
                assert(val < 64 * pow256(i as nat));
            }
            i += 1;
        }
        proof {
            assert(t.take(len as int) =~= t);
            lemma_varint_value_bound(bytes@);
        }
        VarInt { value: val }
    }

    /// Produces this value's canonical encoding.
    pub fn encode(&self) -> (r: Vec<u8>)
        ensures
            r@ == varint_bytes(self@),
            r@.len() == varint_size_of(self@),
    {
        proof {
            use_type_invariant(*self);
        }
        let n = self.size();
        let x: u64 = if self.value < 0x40 {
            self.value
        } else if self.value < 0x4000 {
            self.value + 0x4000
        } else if self.value < 0x4000_0000 {
            self.value + 0x8000_0000
        } else {
            self.value + 0xc000_0000_0000_0000
        };
        let ghost target = bytes_be_of(x as nat, n as nat);
        proof {
            lemma_bytes_be_of_len(x as nat, n as nat);
            assert(target == varint_bytes(self@));
        }
        let mut p: u64 = if n == 1 {
            1
        } else if n == 2 {
            0x100
        } else if n == 4 {
            0x100_0000
        } else {
            0x100_0000_0000_0000
        };
        proof {
            lemma_pow256_values();
        }
        let mut out: Vec<u8> = Vec::new();
        let mut i: usize = 0;
        while i < n
            invariant
                0 <= i <= n,
                n <= 8,
                i < n ==> p as nat == pow256((n - 1 - i) as nat),
                out@.len() == i,
                forall|j: int| 0 <= j < i ==> out@[j] == target[j],
                target.len() == n,
                target == bytes_be_of(x as nat, n as nat),
            decreases n - i,
        {
            proof {
                lemma_pow256_pos((n - 1 - i) as nat);
                lemma_bytes_be_of_index(x as nat, n as nat, i as int);
            }
            let byte = ((x / p) % 256) as u8;
            out.push(byte);
            proof {
                if i + 1 < n {
                    assert(pow256((n - 1 - i) as nat) == 256 * pow256((n - 2 - i) as nat));
                    vstd::arithmetic::div_mod::lemma_div_by_multiple(
                        pow256((n - 2 - i) as nat) as int,
                        256,
                    );
                    assert((pow256((n - 2 - i) as nat) * 256) as int / 256 == pow256(
                        (n - 2 - i) as nat,
                    ) as int);
                }
            }
            p = p / 256;
            i += 1;
        }
        proof {
            assert(out@ =~= target);
        }
        out
    }
}

} // verus!
