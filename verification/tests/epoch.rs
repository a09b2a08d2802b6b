//! Epochs and their encoding.

use rados_primitives::epoch::{decode_epoch, epoch_bytes, increment_epoch};
use rados_primitives::errno;
use rados_primitives::Rejected;

#[test]
fn epoch_does_not_wrap() {
    assert!(matches!(
        increment_epoch(u64::MAX),
        Err(Rejected::Rados(errno::EOVERFLOW))
    ));
}

#[test]
fn epoch_increments_by_one() {
    assert!(matches!(increment_epoch(0), Ok(1)));
    assert!(matches!(increment_epoch(41), Ok(42)));
    assert!(matches!(increment_epoch(u64::MAX - 1), Ok(u64::MAX)));
}

#[test]
fn epoch_is_written_big_endian() {
    assert_eq!(epoch_bytes(0), [0; 8]);
    assert_eq!(epoch_bytes(1), [0, 0, 0, 0, 0, 0, 0, 1]);
    assert_eq!(epoch_bytes(0x0102_0304_0506_0708), [1, 2, 3, 4, 5, 6, 7, 8]);
    assert_eq!(epoch_bytes(u64::MAX), [0xff; 8]);
    for epoch in [0, 1, 255, 256, 0xdead_beef, 1 << 63, u64::MAX] {
        assert_eq!(epoch_bytes(epoch), epoch.to_be_bytes());
    }
}

#[test]
fn decoding_undoes_encoding() {
    for epoch in [0, 1, 255, 256, 65_536, 0x0102_0304_0506_0708, u64::MAX] {
        assert_eq!(decode_epoch(&epoch_bytes(epoch)).expect("8 bytes"), epoch);
    }
}

#[test]
fn missing_epoch_is_epoch_zero() {
    assert!(matches!(decode_epoch(b""), Ok(0)));
}

#[test]
fn epoch_of_another_length_is_invalid() {
    for raw in [&b"1"[..], &[0; 7], &[0; 9], &[0; 16]] {
        assert!(matches!(
            decode_epoch(raw),
            Err(Rejected::Rados(errno::EINVAL))
        ));
    }
}

#[test]
fn encoding_undoes_decoding() {
    for raw in [[0; 8], [0xff; 8], [9, 8, 7, 6, 5, 4, 3, 2]] {
        assert_eq!(epoch_bytes(decode_epoch(&raw).expect("8 bytes")), raw);
    }
}

#[test]
fn epochs_are_told_apart() {
    assert_ne!(epoch_bytes(1), epoch_bytes(256));
    for epoch in [0, 255, 65_535, u64::MAX - 1] {
        let next = increment_epoch(epoch).expect("next");
        assert_ne!(epoch_bytes(next), epoch_bytes(epoch));
        assert_ne!(&epoch_bytes(next)[..], b"");
    }
}
