use bitcoin_codec::{BitcoinError, Script};

#[test]
fn script_new_keeps_the_bytes() {
    assert_eq!(Script::new(vec![1, 2, 3]).bytes, vec![1, 2, 3]);
    assert_eq!(Script::new(vec![]), Script { bytes: vec![] });
}

#[test]
fn two_byte_script() {
    assert_eq!(Script::new(vec![0xAA, 0xBB]).to_bytes(), vec![0x02, 0xAA, 0xBB]);
}

#[test]
fn empty_script() {
    assert_eq!(Script::new(vec![]).to_bytes(), vec![0x00]);
    assert_eq!(Script::from_bytes(&[0x00]), Ok((Script::new(vec![]), 1)));
    assert_eq!(Script::from_bytes(&[0x00, 0x55]), Ok((Script::new(vec![]), 1)));
}

#[test]
fn long_scripts_get_a_wider_length() {
    let content = vec![0x42u8; 252];
    let bytes = Script::new(content.clone()).to_bytes();
    assert_eq!(bytes.len(), 253);
    assert_eq!(bytes[0], 252);
    assert_eq!(&bytes[1..], &content[..]);

    let content = vec![0x43u8; 253];
    let bytes = Script::new(content.clone()).to_bytes();
    assert_eq!(bytes.len(), 256);
    assert_eq!(&bytes[..3], &[0xFD, 0xFD, 0x00]);
    assert_eq!(&bytes[3..], &content[..]);

    let content = vec![0x44u8; 65536];
    let bytes = Script::new(content.clone()).to_bytes();
    assert_eq!(bytes.len(), 65541);
    assert_eq!(&bytes[..5], &[0xFE, 0x00, 0x00, 0x01, 0x00]);
    assert_eq!(&bytes[5..], &content[..]);
}

#[test]
fn script_round_trips() {
    for content in [vec![], vec![0u8], vec![0xAA, 0xBB], vec![7u8; 252], vec![8u8; 253], vec![9u8; 70000]] {
        let script = Script::new(content);
        let bytes = script.to_bytes();
        assert_eq!(Script::from_bytes(&bytes), Ok((script.clone(), bytes.len())));
        let mut followed = bytes.clone();
        followed.extend_from_slice(&[0xEE; 4]);
        assert_eq!(Script::from_bytes(&followed), Ok((script, bytes.len())));
    }
}

#[test]
fn script_decoding_stops_after_the_declared_length() {
    assert_eq!(
        Script::from_bytes(&[0x02, 0xAA, 0xBB, 0xCC]),
        Ok((Script::new(vec![0xAA, 0xBB]), 3))
    );
}

#[test]
fn script_takes_a_wider_length_than_needed() {
    assert_eq!(
        Script::from_bytes(&[0xFD, 0x02, 0x00, 0xAA, 0xBB]),
        Ok((Script::new(vec![0xAA, 0xBB]), 5))
    );
    assert_eq!(
        Script::from_bytes(&[0xFF, 0x01, 0, 0, 0, 0, 0, 0, 0, 0x99]),
        Ok((Script::new(vec![0x99]), 10))
    );
}

#[test]
fn script_refuses_missing_content() {
    assert_eq!(Script::from_bytes(&[0x02, 0xAA]), Err(BitcoinError::InsufficientBytes));
    assert_eq!(Script::from_bytes(&[0x01]), Err(BitcoinError::InsufficientBytes));
    assert_eq!(Script::from_bytes(&[0xFD, 0x02]), Err(BitcoinError::InsufficientBytes));
    assert_eq!(
        Script::from_bytes(&[0xFD, 0x03, 0x00, 0xAA, 0xBB]),
        Err(BitcoinError::InsufficientBytes)
    );
}

#[test]
fn script_refuses_a_length_beyond_any_input() {
    assert_eq!(Script::from_bytes(&[0xFF; 9]), Err(BitcoinError::InsufficientBytes));
    let mut bytes = vec![0xFF, 0xF8, 0xFF, 0xFF, 0xFF, 0xFF, 0xFF, 0xFF, 0xFF];
    bytes.extend_from_slice(&[0u8; 16]);
    assert_eq!(Script::from_bytes(&bytes), Err(BitcoinError::InsufficientBytes));
    assert_eq!(
        Script::from_bytes(&[0xFE, 0xFF, 0xFF, 0xFF, 0xFF, 1, 2, 3]),
        Err(BitcoinError::InsufficientBytes)
    );
}

#[test]
fn truncated_script_is_refused() {
    for content in [vec![], vec![0xAA, 0xBB], vec![8u8; 253], vec![9u8; 300]] {
        let bytes = Script::new(content).to_bytes();
        for keep in 0..bytes.len() {
            assert_eq!(Script::from_bytes(&bytes[..keep]), Err(BitcoinError::InsufficientBytes));
        }
    }
}

#[test]
fn script_refuses_empty_input() {
    assert_eq!(Script::from_bytes(&[]), Err(BitcoinError::InsufficientBytes));
}

#[test]
fn script_gives_read_access_to_its_bytes() {
    let script = Script::new(vec![10, 20, 30]);
    assert_eq!(script.len(), 3);
    assert!(!script.is_empty());
    assert_eq!(script.byte_at(0), Some(10));
    assert_eq!(script.byte_at(2), Some(30));
    assert_eq!(script.byte_at(3), None);
    assert_eq!(script.byte_at(usize::MAX), None);
    assert_eq!(script.as_slice(), &[10, 20, 30]);
    let total: u32 = script.as_slice().iter().map(|byte| *byte as u32).sum();
    assert_eq!(total, 60);

    let empty = Script::new(vec![]);
    assert_eq!(empty.len(), 0);
    assert!(empty.is_empty());
    assert_eq!(empty.byte_at(0), None);
    assert!(empty.as_slice().is_empty());
}
