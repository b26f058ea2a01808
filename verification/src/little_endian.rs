//! Little-endian reading of short byte sequences.
//!
//! The digest of a byte sequence is fixed to one byte order on every machine:
//! the first byte is the least significant. A sequence of fewer than eight
//! bytes counts as if zeros had been appended to it.

use vstd::prelude::*;

verus! {

/// The largest number of bytes that fits in a digest.
pub const MAX_BYTES: usize = 8;

/// `256` to the power `n`.
pub open spec fn pow256(n: nat) -> nat
    decreases n,
{
    if n == 0 {
        1
    } else {
        256 * pow256((n - 1) as nat)
    }
}

/// The number that `bytes` spells in little-endian order: the byte at index
/// `i` counts `256^i`.
pub open spec fn le_value(bytes: Seq<u8>) -> nat
    decreases bytes.len(),
{
    if bytes.len() == 0 {
        0
    } else {
        bytes[0] as nat + 256 * le_value(bytes.drop_first())
    }
}

/// `bytes` with zeros appended up to a length of eight.
pub open spec fn zero_extended(bytes: Seq<u8>) -> Seq<u8>
    recommends
        bytes.len() <= MAX_BYTES,
{
    bytes + Seq::new((MAX_BYTES - bytes.len()) as nat, |i: int| 0u8)
}

/// The digest of at most eight bytes: the bytes, zero-extended to eight and
/// read as one little-endian 64-bit integer.
pub open spec fn digest_of(bytes: Seq<u8>) -> u64
    recommends
        bytes.len() <= MAX_BYTES,
{
    le_value(zero_extended(bytes)) as u64
}

/// The unsigned number with the same two's-complement bit pattern as
/// `value` in an integer type of `width` bytes: a negative value counts from
/// the top of the range.
pub open spec fn unsigned_bits(value: int, width: nat) -> int {
    if value >= 0 {
        value
    } else {
        value + pow256(width)
    }
}

/// The `width` low bytes of `value`, least significant first: how a machine
/// integer of that width is laid out in little-endian order.
pub open spec fn le_bytes(value: nat, width: nat) -> Seq<u8>
    decreases width,
{
    if width == 0 {
        Seq::empty()
    } else {
        seq![(value % 256) as u8] + le_bytes(value / 256, (width - 1) as nat)
    }
}

/// `256^n` is at most `2^64` for `n` up to eight, and at most `2^56` for `n`
/// below eight.
pub proof fn lemma_pow256_bound(n: nat)
    requires
        n <= MAX_BYTES,
    ensures
        pow256(n) <= 0x1_0000_0000_0000_0000,
        n < MAX_BYTES ==> pow256(n) <= 0x100_0000_0000_0000,
{
    reveal_with_fuel(pow256, 9);
}

/// A sequence of `n` bytes spells a number below `256^n`.
pub proof fn lemma_le_value_bound(bytes: Seq<u8>)
    ensures
        le_value(bytes) < pow256(bytes.len()),
    decreases bytes.len(),
{
    if bytes.len() > 0 {
        lemma_le_value_bound(bytes.drop_first());
    }
}

/// Putting a byte in front multiplies what follows by 256.
pub proof fn lemma_le_value_prepend(first: u8, rest: Seq<u8>)
    ensures
        le_value(seq![first] + rest) == first as nat + 256 * le_value(rest),
{
    assert((seq![first] + rest).drop_first() =~= rest);
}

/// Zeros appended at the high end do not change the number.
pub proof fn lemma_le_value_trailing_zeros(bytes: Seq<u8>, n: nat)
    ensures
        le_value(bytes + Seq::new(n, |i: int| 0u8)) == le_value(bytes),
    decreases bytes.len(), n,
{
    let zeros = Seq::new(n, |i: int| 0u8);
    if bytes.len() > 0 {
        assert((bytes + zeros).drop_first() =~= bytes.drop_first() + zeros);
        lemma_le_value_trailing_zeros(bytes.drop_first(), n);
    } else if n > 0 {
        let fewer = Seq::new((n - 1) as nat, |i: int| 0u8);
        assert((bytes + zeros).drop_first() =~= Seq::<u8>::empty() + fewer);
        lemma_le_value_trailing_zeros(Seq::<u8>::empty(), (n - 1) as nat);
    } else {
        assert(bytes + zeros =~= bytes);
    }
}

/// The digest of at most eight bytes is the number they spell: zero-extension
/// adds nothing, and the number fits in 64 bits.
pub proof fn lemma_digest_is_le_value(bytes: Seq<u8>)
    requires
        bytes.len() <= MAX_BYTES,
    ensures
        digest_of(bytes) == le_value(bytes),
        le_value(bytes) <= u64::MAX,
{
    lemma_le_value_trailing_zeros(bytes, (MAX_BYTES - bytes.len()) as nat);
    lemma_le_value_bound(bytes);
    lemma_pow256_bound(bytes.len());
}

/// The little-endian bytes of a number that fits in `width` bytes spell that
/// number again.
pub proof fn lemma_le_bytes_value(value: nat, width: nat)
    requires
        value < pow256(width),
    ensures
        le_bytes(value, width).len() == width,
        le_value(le_bytes(value, width)) == value,
    decreases width,
{
    if width > 0 {
        let rest = le_bytes(value / 256, (width - 1) as nat);
        lemma_le_bytes_value(value / 256, (width - 1) as nat);
        lemma_le_value_prepend((value % 256) as u8, rest);
    }
}

/// The digest of at most eight bytes is what `u64::from_le_bytes` makes of
/// them once they are zero-extended, in vstd's model of that function.
pub proof fn law_digest_is_u64_from_le_bytes(bytes: Seq<u8>)
    requires
        bytes.len() <= MAX_BYTES,
    ensures
        zero_extended(bytes).len() == MAX_BYTES,
        digest_of(bytes) == vstd::bytes::spec_u64_from_le_bytes(zero_extended(bytes)),
{
    let padded = zero_extended(bytes);
    let x = vstd::bytes::spec_u64_from_le_bytes(padded);
    vstd::bytes::lemma_auto_spec_u64_to_from_le_bytes();
    vstd::bytes::spec_u64_to_le_bytes_to_open(x);
    assert(padded == vstd::bytes::spec_u64_to_le_bytes_open(x));
    let b0 = padded[0];
    let b1 = padded[1];
    let b2 = padded[2];
    let b3 = padded[3];
    let b4 = padded[4];
    let b5 = padded[5];
    let b6 = padded[6];
    let b7 = padded[7];
    assert(x == b0 + 0x100 * b1 + 0x1_0000 * b2 + 0x100_0000 * b3 + 0x1_0000_0000 * b4
        + 0x100_0000_0000 * b5 + 0x1_0000_0000_0000 * b6 + 0x100_0000_0000_0000 * b7)
        by (bit_vector)
        requires
            b0 == (x & 0xff) as u8,
            b1 == ((x >> 8) & 0xff) as u8,
            b2 == ((x >> 16) & 0xff) as u8,
            b3 == ((x >> 24) & 0xff) as u8,
            b4 == ((x >> 32) & 0xff) as u8,
            b5 == ((x >> 40) & 0xff) as u8,
            b6 == ((x >> 48) & 0xff) as u8,
            b7 == ((x >> 56) & 0xff) as u8,
    ;
    assert(le_value(padded) == b0 + 256 * (b1 + 256 * (b2 + 256 * (b3 + 256 * (b4 + 256 * (b5 + 256
        * (b6 + 256 * (b7 + 256 * 0)))))))) by {
        let s1 = padded.drop_first();
        let s2 = s1.drop_first();
        let s3 = s2.drop_first();
        let s4 = s3.drop_first();
        let s5 = s4.drop_first();
        let s6 = s5.drop_first();
        let s7 = s6.drop_first();
        let s8 = s7.drop_first();
        assert(le_value(s8) == 0);
        assert(le_value(s7) == b7 + 256 * le_value(s8));
        assert(le_value(s6) == b6 + 256 * le_value(s7));
        assert(le_value(s5) == b5 + 256 * le_value(s6));
        assert(le_value(s4) == b4 + 256 * le_value(s5));
        assert(le_value(s3) == b3 + 256 * le_value(s4));
        assert(le_value(s2) == b2 + 256 * le_value(s3));
        assert(le_value(s1) == b1 + 256 * le_value(s2));
    }
}

/// Reads at most eight bytes as one little-endian integer, and nothing from a
/// longer sequence.
pub fn read_le(bytes: &[u8]) -> (value: Option<u64>)
    ensures
        value == if bytes@.len() <= MAX_BYTES {
            Some(digest_of(bytes@))
        } else {
            None
        },
{
    let len: usize = bytes.len();
    if len > MAX_BYTES {
        return None;
    }
    let mut value: u64 = 0;
    let mut i: usize = len;
    proof {
        assert(bytes@.subrange(len as int, len as int) =~= Seq::<u8>::empty());
    }
    while i > 0
        invariant
            len == bytes@.len(),
            len <= MAX_BYTES,
            i <= len,
            value == le_value(bytes@.subrange(i as int, len as int)),
        decreases i,
    {
        let ghost tail = bytes@.subrange(i as int, len as int);
        proof {
            lemma_le_value_bound(tail);
            lemma_pow256_bound(tail.len());
        }
        i = i - 1;
        let byte: u8 = bytes[i];
        proof {
            lemma_le_value_prepend(byte, tail);
            assert(bytes@.subrange(i as int, len as int) =~= seq![byte] + tail);
        }
        value = value * 256 + byte as u64;
    }
    proof {
        assert(bytes@.subrange(0, len as int) =~= bytes@);
        lemma_digest_is_le_value(bytes@);
    }
    Some(value)
}

} // verus!
