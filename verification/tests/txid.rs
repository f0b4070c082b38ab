use bitcoin_codec::{BitcoinError, Txid};

fn counting() -> [u8; 32] {
    let mut bytes = [0u8; 32];
    for (i, byte) in bytes.iter_mut().enumerate() {
        *byte = (i as u8) * 8 + 1;
    }
    bytes
}

const COUNTING_HEX: &str = "0109111921293139414951596169717981899199a1a9b1b9c1c9d1d9e1e9f1f9";

#[test]
fn to_hex_writes_two_lowercase_digits_per_byte() {
    assert_eq!(Txid([0u8; 32]).to_hex(), "0".repeat(64));
    assert_eq!(Txid([0xFF; 32]).to_hex(), "f".repeat(64));
    assert_eq!(Txid([0xAB; 32]).to_hex(), "ab".repeat(32));
    let mut bytes = [0u8; 32];
    bytes[0] = 0x0F;
    bytes[1] = 0xF0;
    bytes[31] = 0x9C;
    let text = Txid(bytes).to_hex();
    assert_eq!(text.len(), 64);
    assert_eq!(&text[..4], "0ff0");
    assert_eq!(&text[62..], "9c");
}

#[test]
fn to_hex_keeps_the_byte_order() {
    let mut bytes = [0u8; 32];
    for (i, byte) in bytes.iter_mut().enumerate() {
        *byte = i as u8;
    }
    assert_eq!(
        Txid(bytes).to_hex(),
        "000102030405060708090a0b0c0d0e0f101112131415161718191a1b1c1d1e1f"
    );
}

#[test]
fn to_hex_agrees_with_the_hex_crate() {
    let bytes = counting();
    assert_eq!(Txid(bytes).to_hex(), hex::encode(bytes));
}

#[test]
fn from_hex_reads_sixty_four_digits() {
    let text = "000102030405060708090a0b0c0d0e0f101112131415161718191a1b1c1d1e1f";
    let mut expected = [0u8; 32];
    for (i, byte) in expected.iter_mut().enumerate() {
        *byte = i as u8;
    }
    assert_eq!(Txid::from_hex(text), Ok(Txid(expected)));
}

#[test]
fn from_hex_takes_either_case() {
    let lower = "ab".repeat(32);
    let upper = "AB".repeat(32);
    let mixed = "aB".repeat(32);
    assert_eq!(Txid::from_hex(&lower), Ok(Txid([0xAB; 32])));
    assert_eq!(Txid::from_hex(&upper), Ok(Txid([0xAB; 32])));
    assert_eq!(Txid::from_hex(&mixed), Ok(Txid([0xAB; 32])));
}

#[test]
fn txid_text_round_trips() {
    for bytes in [[0u8; 32], [0xFF; 32], [0x5A; 32], counting()] {
        let txid = Txid(bytes);
        assert_eq!(Txid::from_hex(&txid.to_hex()), Ok(txid));
    }
    let round = Txid::from_hex(COUNTING_HEX).map(|txid| txid.to_hex());
    assert_eq!(round, Ok(hex::encode(counting())));
}

#[test]
fn from_hex_refuses_wrong_lengths() {
    assert_eq!(Txid::from_hex(""), Err(BitcoinError::InvalidFormat));
    assert_eq!(Txid::from_hex(&"0".repeat(62)), Err(BitcoinError::InvalidFormat));
    assert_eq!(Txid::from_hex(&"0".repeat(63)), Err(BitcoinError::InvalidFormat));
    assert_eq!(Txid::from_hex(&"0".repeat(65)), Err(BitcoinError::InvalidFormat));
    assert_eq!(Txid::from_hex(&"0".repeat(66)), Err(BitcoinError::InvalidFormat));
}

#[test]
fn from_hex_refuses_other_characters() {
    let mut text = "0".repeat(63);
    text.push('g');
    assert_eq!(Txid::from_hex(&text), Err(BitcoinError::InvalidFormat));
    let mut spaced = "0".repeat(63);
    spaced.insert(10, ' ');
    assert_eq!(Txid::from_hex(&spaced), Err(BitcoinError::InvalidFormat));
    let mut accented = "0".repeat(62);
    accented.push('é');
    assert_eq!(accented.len(), 64);
    assert_eq!(Txid::from_hex(&accented), Err(BitcoinError::InvalidFormat));
    let prefixed = format!("0x{}", "0".repeat(62));
    assert_eq!(Txid::from_hex(&prefixed), Err(BitcoinError::InvalidFormat));
}
