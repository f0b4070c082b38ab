//! Compact sizes: unsigned 64-bit numbers stored in one, three, five or nine
//! bytes. The first byte is the value itself when it is below 253, and
//! otherwise selects how many little-endian bytes follow.

use crate::endian::{
    le_bytes, le_limit, le_value, lemma_le_bytes_len, lemma_le_limits, lemma_le_value_bound,
    lemma_le_value_of_bytes, push_le, read_le,
};
use crate::error::BitcoinError;
use vstd::prelude::*;

verus! {

/// An unsigned number that is written in the narrowest form that holds it.
#[derive(Debug, PartialEq, Eq, Clone)]
pub struct CompactSize {
    pub value: u64,
}

/// The number of payload bytes that follow a first byte: none when the byte is
/// the value itself.
pub open spec fn payload_width(selector: u8) -> nat {
    if selector < 253 {
        0
    } else if selector == 253 {
        2
    } else if selector == 254 {
        4
    } else {
        8
    }
}

impl CompactSize {
    /// The number of bytes that the narrowest form of this number takes.
    pub open spec fn encoded_len(self) -> nat {
        if self.value < 253 {
            1
        } else if self.value <= 0xFFFF {
            3
        } else if self.value <= 0xFFFF_FFFF {
            5
        } else {
            9
        }
    }

    /// The bytes that stand for this number: the narrowest of the four forms.
    pub open spec fn wire(self) -> Seq<u8> {
        if self.value < 253 {
            seq![self.value as u8]
        } else if self.value <= 0xFFFF {
            seq![253u8] + le_bytes(self.value as nat, 2)
        } else if self.value <= 0xFFFF_FFFF {
            seq![254u8] + le_bytes(self.value as nat, 4)
        } else {
            seq![255u8] + le_bytes(self.value as nat, 8)
        }
    }

    /// The number at the front of `s` and the count of bytes it takes, or
    /// `None` when `s` ends too early. Any of the four forms is read, whether
    /// or not a narrower one would have held the number.
    pub open spec fn parse(s: Seq<u8>) -> Option<(CompactSize, nat)> {
        if s.len() == 0 {
            None
        } else {
            let width = payload_width(s[0]);
            if s.len() < 1 + width {
                None
            } else if width == 0 {
                Some((CompactSize { value: s[0] as u64 }, 1))
            } else {
                Some((CompactSize { value: le_value(s.subrange(1, 1 + width as int)) as u64 }, 1 + width))
            }
        }
    }

    pub fn new(value: u64) -> (size: Self)
        ensures
            size.value == value,
    {
        CompactSize { value }
    }

    /// Encodes the number in its narrowest form.
    pub fn to_bytes(&self) -> (bytes: Vec<u8>)
        ensures
            bytes@ == self.wire(),
            bytes@.len() == self.encoded_len(),
    {
        proof {
            lemma_compact_size_wire_len(*self);
        }
        let mut bytes = Vec::new();
        if self.value < 253 {
            bytes.push(self.value as u8);
        } else if self.value <= 0xFFFF {
            bytes.push(253);
            push_le(&mut bytes, self.value, 2);
        } else if self.value <= 0xFFFF_FFFF {
            bytes.push(254);
            push_le(&mut bytes, self.value, 4);
        } else {
            bytes.push(255);
            push_le(&mut bytes, self.value, 8);
        }
        bytes
    }

    /// Decodes the number at the front of `bytes` and reports how many bytes
    /// it took. Fails exactly when `bytes` is empty or shorter than its first
    /// byte demands.
    pub fn from_bytes(bytes: &[u8]) -> (result: Result<(Self, usize), BitcoinError>)
        ensures
            match Self::parse(bytes@) {
                Some((size, used)) => result == Ok::<(Self, usize), BitcoinError>(
                    (size, used as usize),
                ),
                None => result == Err::<(Self, usize), BitcoinError>(
                    BitcoinError::InsufficientBytes,
                ),
            },
    {
        if bytes.len() == 0 {
            return Err(BitcoinError::InsufficientBytes);
        }
        let prefix = bytes[0];
        if prefix < 253 {
            return Ok((CompactSize { value: prefix as u64 }, 1));
        }
        let width: usize = if prefix == 253 {
            2
        } else if prefix == 254 {
            4
        } else {
            8
        };
        if bytes.len() < 1 + width {
            return Err(BitcoinError::InsufficientBytes);
        }
        let value = read_le(bytes, 1, width);
        Ok((CompactSize { value }, 1 + width))
    }
}

/// Decoding an encoded number gives the number back and consumes exactly its
/// encoding, whatever bytes follow it.
pub proof fn lemma_compact_size_round_trip(size: CompactSize, rest: Seq<u8>)
    ensures
        CompactSize::parse(size.wire()) == Some((size, size.wire().len())),
        CompactSize::parse(size.wire() + rest) == Some((size, size.wire().len())),
{
    lemma_le_limits();
    let wire = size.wire();
    let width: nat = (wire.len() - 1) as nat;
    if size.value < 253 {
    } else {
        let width: nat = if size.value <= 0xFFFF {
            2
        } else if size.value <= 0xFFFF_FFFF {
            4
        } else {
            8
        };
        let payload = le_bytes(size.value as nat, width);
        lemma_le_bytes_len(size.value as nat, width);
        lemma_le_value_of_bytes(size.value as nat, width);
        assert(wire.subrange(1, 1 + width as int) =~= payload);
        assert((wire + rest).subrange(1, 1 + width as int) =~= payload);
    }
}

/// An encoding is never longer than any byte string that decodes to the same
/// number: the encoder picks the narrowest form.
pub proof fn lemma_compact_size_minimal(s: Seq<u8>)
    requires
        CompactSize::parse(s) is Some,
    ensures
        CompactSize::parse(s).unwrap().0.wire().len() <= CompactSize::parse(s).unwrap().1,
        CompactSize::parse(s).unwrap().0.encoded_len() <= CompactSize::parse(s).unwrap().1,
{
    lemma_le_limits();
    let width = payload_width(s[0]);
    let value = CompactSize::parse(s).unwrap().0.value;
    lemma_le_bytes_len(value as nat, 2);
    lemma_le_bytes_len(value as nat, 4);
    lemma_le_bytes_len(value as nat, 8);
    if width > 0 {
        lemma_le_value_bound(s.subrange(1, 1 + width as int));
    }
}

/// An encoding has the length of the narrowest form, and starts with the
/// number itself or with the selector of that form.
pub proof fn lemma_compact_size_wire_len(size: CompactSize)
    ensures
        size.wire().len() == size.encoded_len(),
        size.wire().len() == 1 + payload_width(size.wire()[0]),
{
    lemma_le_bytes_len(size.value as nat, 2);
    lemma_le_bytes_len(size.value as nat, 4);
    lemma_le_bytes_len(size.value as nat, 8);
}

/// A number written behind a selector that is wider than it needs still
/// decodes to that number, and the whole wider form is consumed.
pub proof fn lemma_compact_size_permissive(value: u64, selector: u8, rest: Seq<u8>)
    requires
        selector >= 253,
        value < le_limit(payload_width(selector)),
    ensures
        CompactSize::parse(
            seq![selector] + le_bytes(value as nat, payload_width(selector)) + rest,
        ) == Some((CompactSize { value }, 1 + payload_width(selector))),
{
    let width = payload_width(selector);
    let payload = le_bytes(value as nat, width);
    let s = seq![selector] + payload + rest;
    lemma_le_bytes_len(value as nat, width);
    lemma_le_value_of_bytes(value as nat, width);
    assert(s.subrange(1, 1 + width as int) =~= payload);
}

/// What a successful decode consumed lies within the input, and the decode
/// gives the same result when more bytes follow.
pub proof fn lemma_compact_size_parse_extends(s: Seq<u8>, rest: Seq<u8>)
    requires
        CompactSize::parse(s) is Some,
    ensures
        1 <= CompactSize::parse(s).unwrap().1 <= s.len(),
        CompactSize::parse(s + rest) == CompactSize::parse(s),
{
    let width = payload_width(s[0]);
    assert((s + rest).subrange(1, 1 + width as int) =~= s.subrange(1, 1 + width as int));
}

/// An encoding with any number of bytes cut off its end does not decode.
pub proof fn lemma_compact_size_truncated(size: CompactSize, keep: int)
    requires
        0 <= keep < size.wire().len(),
    ensures
        CompactSize::parse(size.wire().subrange(0, keep)) is None,
{
    lemma_compact_size_wire_len(size);
}

} // verus!
