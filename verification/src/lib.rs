//! An identity hasher: a hasher whose digest is the value written to it.
//!
//! A key that is already a well-distributed integer needs no second hashing
//! pass. [`IdentityHasher`] takes one write, of at most eight bytes or of one
//! primitive integer of at most 64 bits, and hands those bits back as its
//! 64-bit digest. It is no cryptographic hash and does not mix its input.
//!
//! # What a write stores
//!
//! Bytes are read in little-endian order on every machine, so that a digest
//! does not depend on the host: the first byte is the least significant, and
//! fewer than eight bytes count as if zeros followed them. An integer is
//! stored by its bit pattern, zero-extended to 64 bits; a negative integer is
//! not sign-extended. Writing an integer therefore gives the digest that
//! writing its little-endian bytes gives.
//!
//! # What a write refuses
//!
//! A write answers with a [`WriteError`] instead of storing anything:
//!
//! - `OversizeWrite` for more than eight bytes, and `UnsupportedWidth` for a
//!   128-bit integer. Both come in every state of the hasher and before
//!   anything else is looked at: nothing is ever truncated.
//! - `ReuseViolation` for a write to a hasher that tracks its writes and has
//!   accepted one before.
//!
//! A refused write leaves the hasher as it was.
//!
//! # Checked and unchecked hashers
//!
//! Whether a hasher tracks its writes is chosen when it is made, with
//! [`IdentityHasher::new`]. A checked hasher, which is also what `Default`
//! gives, reports a second write. An unchecked hasher spares the bookkeeping:
//! it accepts every write of a supported size and keeps the last value, so a
//! caller that writes twice by mistake is not told.
//!
//! # Records
//!
//! The [`record`] module turns a hasher into named fields and back, for
//! serialization frameworks to carry.

pub mod hasher;
pub mod little_endian;
pub mod record;

pub use hasher::{HasherState, IdentityHasher, Reuse, WriteError};
pub use record::{Entry, Field, ReaderState, RecordError, RecordReader, RECORD_NAME};
