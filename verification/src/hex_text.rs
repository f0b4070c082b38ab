//! Hexadecimal text for byte strings: two digits for each byte, the high
//! half first. The conversions themselves are those of the `hex` crate; this
//! module states what they compute.

use vstd::prelude::*;

verus! {

/// The lowercase hexadecimal digit for a number from 0 to 15.
pub open spec fn hex_digit(nibble: int) -> char {
    if nibble < 10 {
        ('0' as int + nibble) as char
    } else {
        ('a' as int + nibble - 10) as char
    }
}

/// The number that a hexadecimal digit stands for, in either case, or `None`
/// for any other character.
pub open spec fn hex_digit_value(c: char) -> Option<int> {
    let code = c as int;
    if '0' as int <= code <= '9' as int {
        Some(code - '0' as int)
    } else if 'a' as int <= code <= 'f' as int {
        Some(code - 'a' as int + 10)
    } else if 'A' as int <= code <= 'F' as int {
        Some(code - 'A' as int + 10)
    } else {
        None
    }
}

/// The lowercase hexadecimal text of `bytes`.
pub open spec fn hex_text(bytes: Seq<u8>) -> Seq<char> {
    Seq::new(
        2 * bytes.len(),
        |i: int|
            if i % 2 == 0 {
                hex_digit(bytes[i / 2] as int / 16)
            } else {
                hex_digit(bytes[i / 2] as int % 16)
            },
    )
}

/// Whether `text` is hexadecimal text for some byte string: an even number of
/// hexadecimal digits, each in either case.
pub open spec fn is_hex_text(text: Seq<char>) -> bool {
    &&& text.len() % 2 == 0
    &&& forall|i: int| 0 <= i < text.len() ==> hex_digit_value(#[trigger] text[i]) is Some
}

/// The bytes that hexadecimal text stands for.
pub open spec fn hex_bytes(text: Seq<char>) -> Seq<u8> {
    Seq::new(
        text.len() / 2,
        |i: int|
            (16 * hex_digit_value(text[2 * i]).unwrap() + hex_digit_value(
                text[2 * i + 1],
            ).unwrap()) as u8,
    )
}

/// The text of a byte string is hexadecimal text, and stands for that byte
/// string.
pub proof fn lemma_hex_round_trip(bytes: Seq<u8>)
    ensures
        hex_text(bytes).len() == 2 * bytes.len(),
        is_hex_text(hex_text(bytes)),
        hex_bytes(hex_text(bytes)) == bytes,
{
    let text = hex_text(bytes);
    assert forall|i: int| 0 <= i < text.len() implies hex_digit_value(#[trigger] text[i]) is Some by {
        let b = bytes[i / 2] as int;
        assert(0 <= b / 16 < 16 && 0 <= b % 16 < 16);
    }
    assert forall|k: int| 0 <= k < bytes.len() implies #[trigger] hex_bytes(text)[k] == bytes[k] by {
        let b = bytes[k] as int;
        assert((2 * k) / 2 == k && (2 * k) % 2 == 0);
        assert((2 * k + 1) / 2 == k && (2 * k + 1) % 2 == 1);
        assert(text[2 * k] == hex_digit(b / 16));
        assert(text[2 * k + 1] == hex_digit(b % 16));
        assert(hex_digit_value(hex_digit(b / 16)) == Some(b / 16));
        assert(hex_digit_value(hex_digit(b % 16)) == Some(b % 16));
    }
    assert(hex_bytes(text) =~= bytes);
}

/// Declares `hex::FromHexError`, the error of `hex::decode`. Nothing is
/// claimed of what it holds; the library only tells it from success.
#[verifier::external_type_specification]
#[verifier::external_body]
pub struct ExFromHexError(hex::FromHexError);

/// Calls `hex::encode`, which writes each byte as two lowercase hexadecimal
/// digits, the high half first. The contract claims that the text returned is
/// exactly `hex_text` of the bytes.
#[verifier::external_body]
pub(crate) fn encode_hex(bytes: &[u8]) -> (text: String)
    ensures
        text@ == hex_text(bytes@),
{
    hex::encode(bytes)
}

/// Calls `hex::decode`, which refuses text of odd length and text that holds
/// anything but hexadecimal digits of either case, and otherwise turns each
/// pair of digits into one byte. The contract claims that the call succeeds
/// exactly on `is_hex_text`, and that the bytes are then `hex_bytes` of the
/// text.
#[verifier::external_body]
pub(crate) fn decode_hex(text: &str) -> (result: Result<Vec<u8>, hex::FromHexError>)
    ensures
        result is Ok <==> is_hex_text(text@),
        result matches Ok(bytes) ==> bytes@ == hex_bytes(text@),
{
    hex::decode(text)
}

} // verus!
