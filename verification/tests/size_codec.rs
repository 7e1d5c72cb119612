use streams_core::error::Error;
use streams_core::size::{size_decode, size_encode, size_num_bytes_exec};

fn round_trip(n: u64) {
    let enc = size_encode(n);
    assert_eq!(enc.len(), 1 + size_num_bytes_exec(n));
    let (v, used) = size_decode(enc.as_slice()).unwrap();
    assert_eq!(v, n);
    assert_eq!(used, enc.len());
}

#[test]
fn size_round_trip_small() {
    round_trip(0);
    round_trip(1);
    round_trip(127);
    round_trip(255);
    round_trip(256);
    round_trip(1023);
}

#[test]
fn size_round_trip_large() {
    round_trip(0x1_0000);
    round_trip(0xFF_FFFF);
    round_trip(0x1_0000_0000);
    round_trip(u64::MAX);
}

#[test]
fn size_encoded_length_is_minimal() {
    assert_eq!(size_encode(0), vec![0u8]);
    assert_eq!(size_encode(1), vec![1u8, 1u8]);
    assert_eq!(size_encode(255), vec![1u8, 255u8]);
    assert_eq!(size_encode(256), vec![2u8, 1u8, 0u8]);
    assert_eq!(size_encode(u64::MAX).len(), 9);
}

#[test]
fn size_decode_rejects_empty() {
    assert_eq!(size_decode(&[]), Err(Error::StreamExhausted));
}

#[test]
fn size_decode_rejects_truncated_value() {
    assert_eq!(size_decode(&[2u8, 1u8]), Err(Error::StreamExhausted));
}

#[test]
fn size_decode_rejects_oversized_count() {
    assert_eq!(
        size_decode(&[9u8, 0, 0, 0, 0, 0, 0, 0, 0, 0]),
        Err(Error::GuardFailed)
    );
}

#[test]
fn size_decode_ignores_trailing_bytes() {
    let (v, used) = size_decode(&[1u8, 42u8, 99u8, 99u8]).unwrap();
    assert_eq!(v, 42);
    assert_eq!(used, 2);
}
