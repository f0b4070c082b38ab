use bitcoin_codec::{BitcoinError, CompactSize};

fn encoded(value: u64) -> Vec<u8> {
    CompactSize::new(value).to_bytes()
}

fn samples() -> Vec<u64> {
    vec![
        0,
        1,
        0x7F,
        252,
        253,
        254,
        255,
        256,
        0x1234,
        65535,
        65536,
        0x0102_0304,
        4294967295,
        4294967296,
        0x0102_0304_0506_0708,
        u64::MAX,
    ]
}

#[test]
fn new_keeps_the_value() {
    assert_eq!(CompactSize::new(77).value, 77);
    assert_eq!(CompactSize::new(u64::MAX), CompactSize { value: u64::MAX });
}

#[test]
fn one_encodes_to_a_single_byte() {
    assert_eq!(encoded(1), vec![0x01]);
}

#[test]
fn decoding_stops_after_the_number() {
    assert_eq!(CompactSize::from_bytes(&[0x01, 0xFF]), Ok((CompactSize::new(1), 1)));
}

#[test]
fn boundary_values_pick_the_documented_widths() {
    assert_eq!(encoded(0), vec![0x00]);
    assert_eq!(encoded(252), vec![0xFC]);
    assert_eq!(encoded(253), vec![0xFD, 0xFD, 0x00]);
    assert_eq!(encoded(65535), vec![0xFD, 0xFF, 0xFF]);
    assert_eq!(encoded(65536), vec![0xFE, 0x00, 0x00, 0x01, 0x00]);
    assert_eq!(encoded(4294967295), vec![0xFE, 0xFF, 0xFF, 0xFF, 0xFF]);
    assert_eq!(encoded(4294967296), vec![0xFF, 0x00, 0x00, 0x00, 0x00, 0x01, 0x00, 0x00, 0x00]);
    assert_eq!(encoded(u64::MAX), vec![0xFF; 9]);
}

#[test]
fn payload_is_little_endian() {
    assert_eq!(encoded(0x1234), vec![0xFD, 0x34, 0x12]);
    assert_eq!(encoded(0x0102_0304), vec![0xFE, 0x04, 0x03, 0x02, 0x01]);
    assert_eq!(
        encoded(0x0102_0304_0506_0708),
        vec![0xFF, 0x08, 0x07, 0x06, 0x05, 0x04, 0x03, 0x02, 0x01]
    );
    assert_eq!(
        CompactSize::from_bytes(&[0xFD, 0x34, 0x12]),
        Ok((CompactSize::new(0x1234), 3))
    );
    assert_eq!(
        CompactSize::from_bytes(&[0xFE, 0x04, 0x03, 0x02, 0x01]),
        Ok((CompactSize::new(0x0102_0304), 5))
    );
    assert_eq!(
        CompactSize::from_bytes(&[0xFF, 0x08, 0x07, 0x06, 0x05, 0x04, 0x03, 0x02, 0x01]),
        Ok((CompactSize::new(0x0102_0304_0506_0708), 9))
    );
}

#[test]
fn compact_size_round_trips() {
    for value in samples() {
        let bytes = encoded(value);
        assert_eq!(
            CompactSize::from_bytes(&bytes),
            Ok((CompactSize::new(value), bytes.len()))
        );
        let mut followed = bytes.clone();
        followed.extend_from_slice(&[0xAB, 0xCD]);
        assert_eq!(
            CompactSize::from_bytes(&followed),
            Ok((CompactSize::new(value), bytes.len()))
        );
    }
}

#[test]
fn encoding_is_the_narrowest_form() {
    for value in samples() {
        let expected = if value < 253 {
            1
        } else if value <= 0xFFFF {
            3
        } else if value <= 0xFFFF_FFFF {
            5
        } else {
            9
        };
        assert_eq!(encoded(value).len(), expected);
    }
}

#[test]
fn wider_forms_than_needed_still_decode() {
    assert_eq!(
        CompactSize::from_bytes(&[0xFF, 10, 0, 0, 0, 0, 0, 0, 0]),
        Ok((CompactSize::new(10), 9))
    );
    assert_eq!(CompactSize::from_bytes(&[0xFE, 10, 0, 0, 0]), Ok((CompactSize::new(10), 5)));
    assert_eq!(CompactSize::from_bytes(&[0xFD, 10, 0]), Ok((CompactSize::new(10), 3)));
    assert_eq!(
        CompactSize::from_bytes(&[0xFF, 0xFF, 0xFF, 0, 0, 0, 0, 0, 0]),
        Ok((CompactSize::new(65535), 9))
    );
}

#[test]
fn truncated_compact_size_is_refused() {
    for value in samples() {
        let bytes = encoded(value);
        for keep in 0..bytes.len() {
            assert_eq!(
                CompactSize::from_bytes(&bytes[..keep]),
                Err(BitcoinError::InsufficientBytes)
            );
        }
    }
}

#[test]
fn compact_size_refuses_empty_input() {
    assert_eq!(CompactSize::from_bytes(&[]), Err(BitcoinError::InsufficientBytes));
}

#[test]
fn compact_size_refuses_short_payloads() {
    assert_eq!(CompactSize::from_bytes(&[0xFD]), Err(BitcoinError::InsufficientBytes));
    assert_eq!(CompactSize::from_bytes(&[0xFD, 1]), Err(BitcoinError::InsufficientBytes));
    assert_eq!(CompactSize::from_bytes(&[0xFE, 1, 2, 3]), Err(BitcoinError::InsufficientBytes));
    assert_eq!(
        CompactSize::from_bytes(&[0xFF, 1, 2, 3, 4, 5, 6, 7]),
        Err(BitcoinError::InsufficientBytes)
    );
}
