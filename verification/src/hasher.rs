//! The hasher, the model of its state, and its write operations.

use crate::little_endian::{
    digest_of, le_bytes, lemma_digest_is_le_value, lemma_le_bytes_value, pow256, read_le,
    unsigned_bits, MAX_BYTES,
};
use vstd::prelude::*;

verus! {

/// What a hasher remembers of earlier writes.
#[derive(Clone, Copy, Debug, PartialEq, Eq, Structural)]
pub enum Reuse {
    /// Writes are not tracked: every write of a supported size is accepted,
    /// and a later write replaces the digest of an earlier one.
    Untracked,
    /// Writes are tracked, and none has succeeded yet.
    Fresh,
    /// Writes are tracked, and one has succeeded: every further write is
    /// refused.
    Spent,
}

/// Why a write was refused.
#[derive(Clone, Copy, Debug, PartialEq, Eq, Structural)]
pub enum WriteError {
    /// More than eight bytes were offered.
    OversizeWrite,
    /// A 128-bit integer was offered.
    UnsupportedWidth,
    /// The hasher tracks its writes and had been written to before.
    ReuseViolation,
}

/// The mathematical state of a hasher.
pub struct HasherState {
    /// The value that `finish` returns.
    pub digest: u64,
    /// What the hasher remembers of earlier writes.
    pub reuse: Reuse,
}

impl HasherState {
    /// The state of a new hasher: a zero digest and no write so far.
    pub open spec fn new(checked: bool) -> HasherState {
        HasherState {
            digest: 0,
            reuse: if checked {
                Reuse::Fresh
            } else {
                Reuse::Untracked
            },
        }
    }

    /// Whether the hasher refuses a second write.
    pub open spec fn is_checked(self) -> bool {
        self.reuse != Reuse::Untracked
    }

    /// What storing one 64-bit value answers, and the state it leaves. A
    /// spent hasher refuses and keeps its state; any other takes the value as
    /// its digest, and a fresh one is spent by it.
    pub open spec fn store(self, value: u64) -> (Result<(), WriteError>, HasherState) {
        match self.reuse {
            Reuse::Spent => (Err(WriteError::ReuseViolation), self),
            Reuse::Fresh => (Ok(()), HasherState { digest: value, reuse: Reuse::Spent }),
            Reuse::Untracked => (Ok(()), HasherState { digest: value, reuse: Reuse::Untracked }),
        }
    }

    /// What writing a byte sequence answers, and the state it leaves. More
    /// than eight bytes are refused whatever the state; fewer are stored as
    /// their digest.
    pub open spec fn write(self, bytes: Seq<u8>) -> (Result<(), WriteError>, HasherState) {
        if bytes.len() > MAX_BYTES {
            (Err(WriteError::OversizeWrite), self)
        } else {
            self.store(digest_of(bytes))
        }
    }

    /// What writing a 128-bit integer answers, and the state it leaves: a
    /// refusal, whatever the state.
    pub open spec fn write_wide(self) -> (Result<(), WriteError>, HasherState) {
        (Err(WriteError::UnsupportedWidth), self)
    }

    /// How many of `values` are accepted when each is stored in turn, and the
    /// state after the last.
    pub open spec fn store_each(self, values: Seq<u64>) -> (nat, HasherState)
        decreases values.len(),
    {
        if values.len() == 0 {
            (0, self)
        } else {
            let (accepted, state) = self.store_each(values.drop_last());
            let (result, next) = state.store(values.last());
            (
                if result is Ok {
                    accepted + 1
                } else {
                    accepted
                },
                next,
            )
        }
    }
}

/// A hasher that returns what was written to it.
///
/// A signed integer is stored by its bit pattern, zero-extended to 64 bits:
/// writing `-1i32` gives the digest `0xffff_ffff`, as writing its four bytes
/// does.
#[derive(Debug, PartialEq, Eq, Structural)]
pub struct IdentityHasher {
    hash: u64,
    reuse: Reuse,
}

impl View for IdentityHasher {
    type V = HasherState;

    closed spec fn view(&self) -> HasherState {
        HasherState { digest: self.hash, reuse: self.reuse }
    }
}

impl Default for IdentityHasher {
    /// A new hasher that refuses a second write.
    fn default() -> (hasher: Self)
        ensures
            hasher@ == HasherState::new(true),
    {
        IdentityHasher::new(true)
    }
}

impl Clone for IdentityHasher {
    fn clone(&self) -> (copy: Self)
        ensures
            copy == *self,
    {
        IdentityHasher { hash: self.hash, reuse: self.reuse }
    }
}

impl IdentityHasher {
    /// A new hasher with a zero digest. A `checked` hasher refuses every
    /// write after its first accepted one; an unchecked one accepts them and
    /// keeps the last value.
    pub fn new(checked: bool) -> (hasher: Self)
        ensures
            hasher@ == HasherState::new(checked),
    {
        IdentityHasher {
            hash: 0,
            reuse: if checked {
                Reuse::Fresh
            } else {
                Reuse::Untracked
            },
        }
    }

    /// A hasher in the given state.
    pub(crate) fn restore(digest: u64, reuse: Reuse) -> (hasher: Self)
        ensures
            hasher@ == (HasherState { digest, reuse }),
    {
        IdentityHasher { hash: digest, reuse }
    }

    /// What the hasher remembers of earlier writes.
    pub(crate) fn reuse(&self) -> (reuse: Reuse)
        ensures
            reuse == self@.reuse,
    {
        self.reuse
    }

    /// Two hashers in the same state are equal: a hasher holds nothing but
    /// its state.
    pub proof fn law_state_determines_hasher(self, other: IdentityHasher)
        requires
            self@ == other@,
        ensures
            self == other,
    {
    }

    fn store(&mut self, value: u64) -> (result: Result<(), WriteError>)
        ensures
            (result, final(self)@) == old(self)@.store(value),
    {
        match self.reuse {
            Reuse::Spent => Err(WriteError::ReuseViolation),
            Reuse::Fresh => {
                self.hash = value;
                self.reuse = Reuse::Spent;
                Ok(())
            },
            Reuse::Untracked => {
                self.hash = value;
                Ok(())
            },
        }
    }

    /// Writes at most eight bytes: the digest becomes their little-endian
    /// value. A longer sequence is refused with `OversizeWrite`, whatever the
    /// state; a spent hasher refuses a shorter one with `ReuseViolation`. A
    /// refused write changes nothing.
    pub fn write(&mut self, bytes: &[u8]) -> (result: Result<(), WriteError>)
        ensures
            (result, final(self)@) == old(self)@.write(bytes@),
            result is Ok <==> bytes@.len() <= MAX_BYTES && old(self)@.reuse != Reuse::Spent,
            result is Ok ==> final(self)@.digest == digest_of(bytes@),
            result is Err ==> final(self)@ == old(self)@,
            bytes@.len() > MAX_BYTES ==> result == Err::<(), WriteError>(
                WriteError::OversizeWrite,
            ),
    {
        match read_le(bytes) {
            None => Err(WriteError::OversizeWrite),
            Some(value) => self.store(value),
        }
    }

    /// Writes one `u8`: the digest becomes its value.
    pub fn write_u8(&mut self, i: u8) -> (result: Result<(), WriteError>)
        ensures
            (result, final(self)@) == old(self)@.store(i as u64),
    {
        self.store(i as u64)
    }

    /// Writes one `u16`: the digest becomes its value.
    pub fn write_u16(&mut self, i: u16) -> (result: Result<(), WriteError>)
        ensures
            (result, final(self)@) == old(self)@.store(i as u64),
    {
        self.store(i as u64)
    }

    /// Writes one `u32`: the digest becomes its value.
    pub fn write_u32(&mut self, i: u32) -> (result: Result<(), WriteError>)
        ensures
            (result, final(self)@) == old(self)@.store(i as u64),
    {
        self.store(i as u64)
    }

    /// Writes one `u64`: the digest becomes its value.
    pub fn write_u64(&mut self, i: u64) -> (result: Result<(), WriteError>)
        ensures
            (result, final(self)@) == old(self)@.store(i),
    {
        self.store(i)
    }

    /// Writes one `usize`: the digest becomes its value.
    pub fn write_usize(&mut self, i: usize) -> (result: Result<(), WriteError>)
        ensures
            (result, final(self)@) == old(self)@.store(i as u64),
    {
        self.store(i as u64)
    }

    /// Writes one `i8`: the digest becomes its bit pattern, zero-extended.
    pub fn write_i8(&mut self, i: i8) -> (result: Result<(), WriteError>)
        ensures
            (result, final(self)@) == old(self)@.store(unsigned_bits(i as int, 1) as u64),
    {
        let raw: u8 = #[verifier::truncate] (i as u8);
        proof {
            reveal_with_fuel(pow256, 2);
            assert(raw == if i >= 0 { i as int } else { i + 0x100 }) by (bit_vector)
                requires
                    raw == i as u8,
            ;
        }
        self.store(raw as u64)
    }

    /// Writes one `i16`: the digest becomes its bit pattern, zero-extended.
    pub fn write_i16(&mut self, i: i16) -> (result: Result<(), WriteError>)
        ensures
            (result, final(self)@) == old(self)@.store(unsigned_bits(i as int, 2) as u64),
    {
        let raw: u16 = #[verifier::truncate] (i as u16);
        proof {
            reveal_with_fuel(pow256, 3);
            assert(raw == if i >= 0 { i as int } else { i + 0x1_0000 }) by (bit_vector)
                requires
                    raw == i as u16,
            ;
        }
        self.store(raw as u64)
    }

    /// Writes one `i32`: the digest becomes its bit pattern, zero-extended.
    pub fn write_i32(&mut self, i: i32) -> (result: Result<(), WriteError>)
        ensures
            (result, final(self)@) == old(self)@.store(unsigned_bits(i as int, 4) as u64),
    {
        let raw: u32 = #[verifier::truncate] (i as u32);
        proof {
            reveal_with_fuel(pow256, 5);
            assert(raw == if i >= 0 { i as int } else { i + 0x1_0000_0000 }) by (bit_vector)
                requires
                    raw == i as u32,
            ;
        }
        self.store(raw as u64)
    }

    /// Writes one `i64`: the digest becomes its bit pattern.
    pub fn write_i64(&mut self, i: i64) -> (result: Result<(), WriteError>)
        ensures
            (result, final(self)@) == old(self)@.store(unsigned_bits(i as int, 8) as u64),
    {
        let raw: u64 = #[verifier::truncate] (i as u64);
        proof {
            reveal_with_fuel(pow256, 9);
            assert(raw == if i >= 0 { i as int } else { i + 0x1_0000_0000_0000_0000 })
                by (bit_vector)
                requires
                    raw == i as u64,
            ;
        }
        self.store(raw)
    }

    /// Writes one `isize`: the digest becomes its bit pattern, zero-extended
    /// where an `isize` is narrower than 64 bits.
    pub fn write_isize(&mut self, i: isize) -> (result: Result<(), WriteError>)
        ensures
            (result, final(self)@) == old(self)@.store(
                unsigned_bits(i as int, (usize::BITS / 8) as nat) as u64,
            ),
    {
        // The complement of a negative `i` is `-(i + 1)`, which is not negative.
        let raw: usize = if i >= 0 {
            i as usize
        } else {
            usize::MAX - (-(i + 1)) as usize
        };
        proof {
            reveal_with_fuel(pow256, 9);
        }
        self.store(raw as u64)
    }

    /// Refuses a `u128` with `UnsupportedWidth`, whatever the state: 128 bits
    /// do not fit in a digest. Nothing changes.
    pub fn write_u128(&mut self, _i: u128) -> (result: Result<(), WriteError>)
        ensures
            (result, final(self)@) == old(self)@.write_wide(),
            result == Err::<(), WriteError>(WriteError::UnsupportedWidth),
            final(self)@ == old(self)@,
    {
        Err(WriteError::UnsupportedWidth)
    }

    /// Refuses an `i128` with `UnsupportedWidth`, whatever the state: 128
    /// bits do not fit in a digest. Nothing changes.
    pub fn write_i128(&mut self, _i: i128) -> (result: Result<(), WriteError>)
        ensures
            (result, final(self)@) == old(self)@.write_wide(),
            result == Err::<(), WriteError>(WriteError::UnsupportedWidth),
            final(self)@ == old(self)@,
    {
        Err(WriteError::UnsupportedWidth)
    }

    /// Returns the digest: the value of the last accepted write, or zero
    /// where there was none.
    pub fn finish(&self) -> (digest: u64)
        ensures
            digest == self@.digest,
    {
        self.hash
    }
}

/// A hasher that tracks its writes keeps the first value it accepts. Every
/// accepted write, of bytes or of an integer, is a store of its digest; after
/// one, the hasher refuses each further store and each further write of at
/// most eight bytes with `ReuseViolation`, and its state stays as it was.
pub proof fn law_checked_refuses_second_write(
    state: HasherState,
    first: u64,
    second: u64,
    bytes: Seq<u8>,
)
    requires
        state.is_checked(),
        state.store(first).0 is Ok,
        bytes.len() <= MAX_BYTES,
    ensures
        ({
            let written = state.store(first).1;
            &&& written.digest == first
            &&& written.reuse == Reuse::Spent
            &&& written.store(second) == (Err::<(), WriteError>(WriteError::ReuseViolation), written)
            &&& written.write(bytes) == (Err::<(), WriteError>(WriteError::ReuseViolation), written)
        }),
{
}

/// Over its whole life a hasher that tracks its writes accepts at most one
/// store. A fresh one accepts the first and keeps that value whatever is
/// offered later; a spent one accepts none and stays as it is.
pub proof fn law_checked_accepts_at_most_one_write(state: HasherState, values: Seq<u64>)
    requires
        state.is_checked(),
    ensures
        state.store_each(values).0 <= 1,
        state.store_each(values).1.is_checked(),
        state.reuse == Reuse::Spent ==> state.store_each(values) == (0nat, state),
        state.reuse == Reuse::Fresh && values.len() > 0 ==> state.store_each(values) == (
            1nat,
            HasherState { digest: values[0], reuse: Reuse::Spent },
        ),
    decreases values.len(),
{
    if values.len() > 0 {
        law_checked_accepts_at_most_one_write(state, values.drop_last());
        if values.len() > 1 {
            assert(values.drop_last()[0] == values[0]);
        }
    }
}

/// A hasher that does not track its writes accepts every store, and its
/// digest is the value stored last.
pub proof fn law_unchecked_keeps_last_write(state: HasherState, first: u64, second: u64)
    requires
        !state.is_checked(),
    ensures
        ({
            let (first_result, written) = state.store(first);
            let (second_result, replaced) = written.store(second);
            &&& first_result is Ok
            &&& written.digest == first
            &&& second_result is Ok
            &&& replaced.digest == second
            &&& !replaced.is_checked()
        }),
{
}

/// Over its whole life a hasher that does not track its writes accepts every
/// store, and its digest is the last value stored.
pub proof fn law_unchecked_accepts_every_write(state: HasherState, values: Seq<u64>)
    requires
        !state.is_checked(),
    ensures
        state.store_each(values).0 == values.len(),
        !state.store_each(values).1.is_checked(),
        values.len() > 0 ==> state.store_each(values).1.digest == values.last(),
    decreases values.len(),
{
    if values.len() > 0 {
        law_unchecked_accepts_every_write(state, values.drop_last());
    }
}

/// More than eight bytes are refused with `OversizeWrite` in every state,
/// also in one that refuses a shorter write as a reuse: the size of a write
/// is judged before the state is looked at.
pub proof fn law_oversize_write_is_refused_in_every_state(state: HasherState, bytes: Seq<u8>)
    requires
        bytes.len() > MAX_BYTES,
    ensures
        state.write(bytes) == (Err::<(), WriteError>(WriteError::OversizeWrite), state),
{
}

/// A 128-bit integer is refused with `UnsupportedWidth` in every state, also
/// in one that refuses a narrower integer as a reuse.
pub proof fn law_wide_write_is_refused_in_every_state(state: HasherState)
    ensures
        state.write_wide() == (Err::<(), WriteError>(WriteError::UnsupportedWidth), state),
{
}

/// Writing an integer is writing its bytes. For a signed or unsigned integer
/// `value` of `width` bytes, the write of its little-endian representation
/// answers as the store of its bit pattern does, and leaves the same state.
pub proof fn law_integer_write_is_byte_write(state: HasherState, value: int, width: nat)
    requires
        1 <= width <= MAX_BYTES,
        -(pow256(width) / 2) <= value < pow256(width),
    ensures
        0 <= unsigned_bits(value, width) < pow256(width),
        le_bytes(unsigned_bits(value, width) as nat, width).len() == width,
        state.write(le_bytes(unsigned_bits(value, width) as nat, width)) == state.store(
            unsigned_bits(value, width) as u64,
        ),
{
    let raw = unsigned_bits(value, width) as nat;
    lemma_le_bytes_value(raw, width);
    lemma_digest_is_le_value(le_bytes(raw, width));
}

} // verus!
