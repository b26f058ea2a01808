use identity_hasher::little_endian::read_le;
use identity_hasher::{IdentityHasher, WriteError};

#[test]
fn write() {
    let mut hasher = IdentityHasher::default();

    assert_eq!(hasher.write(&[42, 0, 0, 0, 0, 0, 0, 0]), Ok(()));

    assert_eq!(hasher.finish(), 42);
}

#[test]
fn write_less_than_8_bytes() {
    let mut hasher = IdentityHasher::default();

    assert_eq!(hasher.write(&[42]), Ok(()));

    assert_eq!(hasher.finish(), 42);
}

#[test]
fn write_more_than_8_bytes() {
    let mut hasher = IdentityHasher::default();

    assert_eq!(hasher.write(&[0; 16]), Err(WriteError::OversizeWrite));

    assert_eq!(hasher, IdentityHasher::default());
}

#[test]
fn write_twice() {
    let mut hasher = IdentityHasher::default();

    assert_eq!(hasher.write(&[42, 0, 0, 0, 0, 0, 0, 0]), Ok(()));
    assert_eq!(
        hasher.write(&[42, 0, 0, 0, 0, 0, 0, 0]),
        Err(WriteError::ReuseViolation)
    );

    assert_eq!(hasher.finish(), 42);
}

#[test]
fn write_u8() {
    let mut hasher = IdentityHasher::default();

    assert_eq!(hasher.write_u8(42), Ok(()));

    assert_eq!(hasher.finish(), 42);
}

#[test]
fn write_u16() {
    let mut hasher = IdentityHasher::default();

    assert_eq!(hasher.write_u16(42), Ok(()));

    assert_eq!(hasher.finish(), 42);
}

#[test]
fn write_u32() {
    let mut hasher = IdentityHasher::default();

    assert_eq!(hasher.write_u32(42), Ok(()));

    assert_eq!(hasher.finish(), 42);
}

#[test]
fn write_u64() {
    let mut hasher = IdentityHasher::default();

    assert_eq!(hasher.write_u64(42), Ok(()));

    assert_eq!(hasher.finish(), 42);
}

#[test]
fn write_usize() {
    let mut hasher = IdentityHasher::default();

    assert_eq!(hasher.write_usize(42), Ok(()));

    assert_eq!(hasher.finish(), 42);
}

#[test]
fn write_i8() {
    let mut hasher = IdentityHasher::default();

    assert_eq!(hasher.write_i8(42), Ok(()));

    assert_eq!(hasher.finish(), 42);
}

#[test]
fn write_i16() {
    let mut hasher = IdentityHasher::default();

    assert_eq!(hasher.write_i16(42), Ok(()));

    assert_eq!(hasher.finish(), 42);
}

#[test]
fn write_i32() {
    let mut hasher = IdentityHasher::default();

    assert_eq!(hasher.write_i32(42), Ok(()));

    assert_eq!(hasher.finish(), 42);
}

#[test]
fn write_i64() {
    let mut hasher = IdentityHasher::default();

    assert_eq!(hasher.write_i64(42), Ok(()));

    assert_eq!(hasher.finish(), 42);
}

#[test]
fn write_isize() {
    let mut hasher = IdentityHasher::default();

    assert_eq!(hasher.write_isize(42), Ok(()));

    assert_eq!(hasher.finish(), 42);
}

#[test]
fn write_u8_twice() {
    let mut hasher = IdentityHasher::default();

    assert_eq!(hasher.write_u8(42), Ok(()));
    assert_eq!(hasher.write_u8(42), Err(WriteError::ReuseViolation));
}

#[test]
fn write_u16_twice() {
    let mut hasher = IdentityHasher::default();

    assert_eq!(hasher.write_u16(42), Ok(()));
    assert_eq!(hasher.write_u16(42), Err(WriteError::ReuseViolation));
}

#[test]
fn write_u32_twice() {
    let mut hasher = IdentityHasher::default();

    assert_eq!(hasher.write_u32(42), Ok(()));
    assert_eq!(hasher.write_u32(42), Err(WriteError::ReuseViolation));
}

#[test]
fn write_u64_twice() {
    let mut hasher = IdentityHasher::default();

    assert_eq!(hasher.write_u64(42), Ok(()));
    assert_eq!(hasher.write_u64(42), Err(WriteError::ReuseViolation));
}

#[test]
fn write_usize_twice() {
    let mut hasher = IdentityHasher::default();

    assert_eq!(hasher.write_usize(42), Ok(()));
    assert_eq!(hasher.write_usize(42), Err(WriteError::ReuseViolation));
}

#[test]
fn write_i8_twice() {
    let mut hasher = IdentityHasher::default();

    assert_eq!(hasher.write_i8(42), Ok(()));
    assert_eq!(hasher.write_i8(42), Err(WriteError::ReuseViolation));
}

#[test]
fn write_i16_twice() {
    let mut hasher = IdentityHasher::default();

    assert_eq!(hasher.write_i16(42), Ok(()));
    assert_eq!(hasher.write_i16(42), Err(WriteError::ReuseViolation));
}

#[test]
fn write_i32_twice() {
    let mut hasher = IdentityHasher::default();

    assert_eq!(hasher.write_i32(42), Ok(()));
    assert_eq!(hasher.write_i32(42), Err(WriteError::ReuseViolation));
}

#[test]
fn write_i64_twice() {
    let mut hasher = IdentityHasher::default();

    assert_eq!(hasher.write_i64(42), Ok(()));
    assert_eq!(hasher.write_i64(42), Err(WriteError::ReuseViolation));
}

#[test]
fn write_isize_twice() {
    let mut hasher = IdentityHasher::default();

    assert_eq!(hasher.write_isize(42), Ok(()));
    assert_eq!(hasher.write_isize(42), Err(WriteError::ReuseViolation));
}

#[test]
fn write_u128_is_refused() {
    let mut hasher = IdentityHasher::default();

    assert_eq!(hasher.write_u128(42), Err(WriteError::UnsupportedWidth));

    assert_eq!(hasher, IdentityHasher::default());
}

#[test]
fn write_i128_is_refused() {
    let mut hasher = IdentityHasher::default();

    assert_eq!(hasher.write_i128(42), Err(WriteError::UnsupportedWidth));

    assert_eq!(hasher, IdentityHasher::default());
}

#[test]
fn wide_write_is_refused_in_every_state() {
    let mut unchecked = IdentityHasher::new(false);
    assert_eq!(unchecked.write_u128(0), Err(WriteError::UnsupportedWidth));
    assert_eq!(unchecked.write_i128(-1), Err(WriteError::UnsupportedWidth));
    assert_eq!(unchecked, IdentityHasher::new(false));

    let mut spent = IdentityHasher::new(true);
    assert_eq!(spent.write_u64(7), Ok(()));
    assert_eq!(spent.write_u128(1), Err(WriteError::UnsupportedWidth));
    assert_eq!(spent.write_i128(1), Err(WriteError::UnsupportedWidth));
    assert_eq!(spent.finish(), 7);
}

#[test]
fn new_hasher_finishes_with_zero() {
    assert_eq!(IdentityHasher::default().finish(), 0);
    assert_eq!(IdentityHasher::new(true).finish(), 0);
    assert_eq!(IdentityHasher::new(false).finish(), 0);
}

#[test]
fn default_hasher_tracks_its_writes() {
    assert_eq!(IdentityHasher::default(), IdentityHasher::new(true));
    assert_ne!(IdentityHasher::default(), IdentityHasher::new(false));
}

#[test]
fn bytes_are_read_little_endian() {
    let mut hasher = IdentityHasher::default();

    assert_eq!(hasher.write(&[1, 2, 3, 4, 5, 6, 7, 8]), Ok(()));

    assert_eq!(hasher.finish(), 0x0807_0605_0403_0201);
}

#[test]
fn short_writes_are_zero_extended() {
    let mut three = IdentityHasher::default();
    assert_eq!(three.write(&[0x01, 0x02, 0x03]), Ok(()));
    assert_eq!(three.finish(), 0x03_0201);

    let mut seven = IdentityHasher::default();
    assert_eq!(seven.write(&[0xff; 7]), Ok(()));
    assert_eq!(seven.finish(), 0x00ff_ffff_ffff_ffff);

    let mut eight = IdentityHasher::default();
    assert_eq!(eight.write(&[0xff; 8]), Ok(()));
    assert_eq!(eight.finish(), u64::MAX);
}

#[test]
fn digest_is_from_le_bytes_of_the_padded_input() {
    let input: [u8; 5] = [0xde, 0xad, 0xbe, 0xef, 0x01];
    let mut padded: [u8; 8] = [0; 8];
    padded[..5].copy_from_slice(&input);

    let mut hasher = IdentityHasher::default();
    assert_eq!(hasher.write(&input), Ok(()));

    assert_eq!(hasher.finish(), u64::from_le_bytes(padded));
    assert_eq!(hasher.finish(), 0x01_efbe_adde);
}

#[test]
fn empty_write_counts_as_a_write() {
    let mut hasher = IdentityHasher::default();

    assert_eq!(hasher.write(&[]), Ok(()));
    assert_eq!(hasher.finish(), 0);

    assert_eq!(hasher.write(&[1]), Err(WriteError::ReuseViolation));
    assert_eq!(hasher.finish(), 0);
}

#[test]
fn nine_bytes_are_oversize() {
    let mut hasher = IdentityHasher::default();

    assert_eq!(hasher.write(&[1; 9]), Err(WriteError::OversizeWrite));

    assert_eq!(hasher.finish(), 0);
    assert_eq!(hasher.write(&[1; 8]), Ok(()));
    assert_eq!(hasher.finish(), 0x0101_0101_0101_0101);
}

#[test]
fn oversize_write_is_refused_in_every_state() {
    let mut unchecked = IdentityHasher::new(false);
    assert_eq!(unchecked.write(&[0; 16]), Err(WriteError::OversizeWrite));
    assert_eq!(unchecked.write_u8(3), Ok(()));
    assert_eq!(unchecked.write(&[9; 9]), Err(WriteError::OversizeWrite));
    assert_eq!(unchecked.finish(), 3);

    let mut spent = IdentityHasher::new(true);
    assert_eq!(spent.write_u8(3), Ok(()));
    assert_eq!(spent.write(&[0; 16]), Err(WriteError::OversizeWrite));
    assert_eq!(spent.write(&[0; 8]), Err(WriteError::ReuseViolation));
    assert_eq!(spent.finish(), 3);
}

#[test]
fn refused_oversize_write_does_not_spend_the_hasher() {
    let mut hasher = IdentityHasher::default();

    assert_eq!(hasher.write(&[0; 16]), Err(WriteError::OversizeWrite));
    assert_eq!(hasher.write_u128(1), Err(WriteError::UnsupportedWidth));

    assert_eq!(hasher.write_u64(42), Ok(()));
    assert_eq!(hasher.finish(), 42);
}

#[test]
fn second_write_of_another_kind_is_refused() {
    let mut hasher = IdentityHasher::default();

    assert_eq!(hasher.write_u64(42), Ok(()));

    assert_eq!(hasher.write(&[7]), Err(WriteError::ReuseViolation));
    assert_eq!(hasher.write_i8(7), Err(WriteError::ReuseViolation));
    assert_eq!(hasher.write_usize(7), Err(WriteError::ReuseViolation));
    assert_eq!(hasher.finish(), 42);
}

#[test]
fn unchecked_hasher_keeps_the_last_write() {
    let mut hasher = IdentityHasher::new(false);

    assert_eq!(hasher.write_u64(42), Ok(()));
    assert_eq!(hasher.finish(), 42);

    assert_eq!(hasher.write_u32(100), Ok(()));
    assert_eq!(hasher.finish(), 100);

    assert_eq!(hasher.write(&[1, 1]), Ok(()));
    assert_eq!(hasher.finish(), 0x0101);
}

#[test]
fn finish_does_not_change_the_hasher() {
    let mut hasher = IdentityHasher::default();
    assert_eq!(hasher.finish(), 0);
    assert_eq!(hasher.finish(), 0);
    assert_eq!(hasher, IdentityHasher::default());

    assert_eq!(hasher.write_u16(513), Ok(()));
    let written = hasher.clone();
    assert_eq!(hasher.finish(), 513);
    assert_eq!(hasher.finish(), 513);
    assert_eq!(hasher, written);

    assert_eq!(hasher.write_u16(1), Err(WriteError::ReuseViolation));
    assert_eq!(hasher.finish(), 513);
    assert_eq!(hasher, written);
}

#[test]
fn unsigned_integers_keep_their_value() {
    let mut byte = IdentityHasher::default();
    assert_eq!(byte.write_u8(u8::MAX), Ok(()));
    assert_eq!(byte.finish(), 0xff);

    let mut short = IdentityHasher::default();
    assert_eq!(short.write_u16(u16::MAX), Ok(()));
    assert_eq!(short.finish(), 0xffff);

    let mut word = IdentityHasher::default();
    assert_eq!(word.write_u32(u32::MAX), Ok(()));
    assert_eq!(word.finish(), 0xffff_ffff);

    let mut long = IdentityHasher::default();
    assert_eq!(long.write_u64(u64::MAX), Ok(()));
    assert_eq!(long.finish(), u64::MAX);

    let mut native = IdentityHasher::default();
    assert_eq!(native.write_usize(usize::MAX), Ok(()));
    assert_eq!(native.finish(), usize::MAX as u64);
}

#[test]
fn signed_integers_are_zero_extended() {
    let mut byte = IdentityHasher::default();
    assert_eq!(byte.write_i8(-1), Ok(()));
    assert_eq!(byte.finish(), 0xff);

    let mut short = IdentityHasher::default();
    assert_eq!(short.write_i16(-2), Ok(()));
    assert_eq!(short.finish(), 0xfffe);

    let mut word = IdentityHasher::default();
    assert_eq!(word.write_i32(-1), Ok(()));
    assert_eq!(word.finish(), 0xffff_ffff);

    let mut long = IdentityHasher::default();
    assert_eq!(long.write_i64(-1), Ok(()));
    assert_eq!(long.finish(), u64::MAX);

    let mut native = IdentityHasher::default();
    assert_eq!(native.write_isize(-1), Ok(()));
    assert_eq!(native.finish(), usize::MAX as u64);
}

#[test]
fn least_signed_integers_set_the_top_bit_of_their_width() {
    let mut byte = IdentityHasher::default();
    assert_eq!(byte.write_i8(i8::MIN), Ok(()));
    assert_eq!(byte.finish(), 0x80);

    let mut short = IdentityHasher::default();
    assert_eq!(short.write_i16(i16::MIN), Ok(()));
    assert_eq!(short.finish(), 0x8000);

    let mut word = IdentityHasher::default();
    assert_eq!(word.write_i32(i32::MIN), Ok(()));
    assert_eq!(word.finish(), 0x8000_0000);

    let mut long = IdentityHasher::default();
    assert_eq!(long.write_i64(i64::MIN), Ok(()));
    assert_eq!(long.finish(), 0x8000_0000_0000_0000);

    let mut native = IdentityHasher::default();
    assert_eq!(native.write_isize(isize::MIN), Ok(()));
    assert_eq!(native.finish(), (usize::MAX / 2 + 1) as u64);
}

#[test]
fn integer_write_is_the_write_of_its_bytes() {
    let value: i32 = -123_456;
    let mut by_value = IdentityHasher::default();
    let mut by_bytes = IdentityHasher::default();
    assert_eq!(by_value.write_i32(value), Ok(()));
    assert_eq!(by_bytes.write(&value.to_le_bytes()), Ok(()));
    assert_eq!(by_value, by_bytes);
    assert_eq!(by_value.finish(), 0xfffe_1dc0);

    let wide: u64 = 0x0123_4567_89ab_cdef;
    let mut by_value = IdentityHasher::default();
    let mut by_bytes = IdentityHasher::default();
    assert_eq!(by_value.write_u64(wide), Ok(()));
    assert_eq!(by_bytes.write(&wide.to_le_bytes()), Ok(()));
    assert_eq!(by_value, by_bytes);

    let native: isize = -7;
    let mut by_value = IdentityHasher::default();
    let mut by_bytes = IdentityHasher::default();
    assert_eq!(by_value.write_isize(native), Ok(()));
    assert_eq!(by_bytes.write(&native.to_le_bytes()), Ok(()));
    assert_eq!(by_value, by_bytes);
}

#[test]
fn clone_is_equal_and_independent() {
    let mut hasher = IdentityHasher::default();
    let copy = hasher.clone();
    assert_eq!(copy, hasher);

    assert_eq!(hasher.write_u8(1), Ok(()));
    assert_ne!(copy, hasher);
    assert_eq!(copy.finish(), 0);
}

#[test]
fn hashers_differ_by_digest_and_by_use() {
    let mut zero_written = IdentityHasher::default();
    assert_eq!(zero_written.write_u8(0), Ok(()));
    assert_ne!(zero_written, IdentityHasher::default());

    let mut one = IdentityHasher::new(false);
    let mut two = IdentityHasher::new(false);
    assert_eq!(one.write_u8(1), Ok(()));
    assert_eq!(two.write_u8(2), Ok(()));
    assert_ne!(one, two);
    assert_eq!(two.write_u8(1), Ok(()));
    assert_eq!(one, two);
}

#[test]
fn read_le_reads_up_to_eight_bytes() {
    assert_eq!(read_le(&[]), Some(0));
    assert_eq!(read_le(&[42]), Some(42));
    assert_eq!(read_le(&[0, 1]), Some(256));
    assert_eq!(read_le(&[0, 0, 0, 0, 0, 0, 0, 0x80]), Some(1 << 63));
    assert_eq!(read_le(&[0; 9]), None);
    assert_eq!(read_le(&[0; 16]), None);
}
