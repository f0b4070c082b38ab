//! Scripts: byte strings of any length, written behind a compact size that
//! gives the length.

use crate::compact_size::{
    lemma_compact_size_parse_extends, lemma_compact_size_round_trip,
    lemma_compact_size_wire_len, CompactSize,
};
use crate::error::BitcoinError;
use vstd::prelude::*;
use vstd::slice::{slice_subrange, slice_to_vec};

verus! {

/// A script, held as the bytes it is made of. The codec gives them no meaning.
#[derive(Debug, PartialEq, Eq, Clone)]
pub struct Script {
    pub bytes: Vec<u8>,
}

/// What a script holds.
pub struct ScriptView {
    pub bytes: Seq<u8>,
}

impl View for Script {
    type V = ScriptView;

    open spec fn view(&self) -> ScriptView {
        ScriptView { bytes: self.bytes@ }
    }
}

impl ScriptView {
    /// The length can be written as a compact size.
    pub open spec fn well_formed(self) -> bool {
        self.bytes.len() <= u64::MAX
    }

    /// The bytes that stand for the script: its length as a compact size, then
    /// its content.
    pub open spec fn wire(self) -> Seq<u8> {
        CompactSize { value: self.bytes.len() as u64 }.wire() + self.bytes
    }

    /// The script at the front of `s` and the count of bytes it takes, or
    /// `None` when the length does not decode or fewer bytes follow it than it
    /// declares.
    pub open spec fn parse(s: Seq<u8>) -> Option<(ScriptView, nat)> {
        match CompactSize::parse(s) {
            None => None,
            Some((length, prefix)) => {
                if s.len() - prefix < length.value {
                    None
                } else {
                    Some(
                        (
                            ScriptView {
                                bytes: s.subrange(prefix as int, prefix + length.value),
                            },
                            (prefix + length.value) as nat,
                        ),
                    )
                }
            },
        }
    }
}

impl Script {
    pub fn new(bytes: Vec<u8>) -> (script: Self)
        ensures
            script.bytes == bytes,
    {
        Script { bytes }
    }

    /// Encodes the script.
    pub fn to_bytes(&self) -> (bytes: Vec<u8>)
        ensures
            bytes@ == self@.wire(),
    {
        let length = CompactSize::new(self.bytes.len() as u64);
        let mut bytes = length.to_bytes();
        bytes.extend_from_slice(self.bytes.as_slice());
        assert(bytes@ =~= self@.wire());
        bytes
    }

    /// Decodes the script at the front of `bytes` and reports how many bytes
    /// it took. Fails exactly when the length does not decode or fewer bytes
    /// follow it than it declares.
    pub fn from_bytes(bytes: &[u8]) -> (result: Result<(Self, usize), BitcoinError>)
        ensures
            match ScriptView::parse(bytes@) {
                Some((script, used)) => result matches Ok((decoded, consumed))
                    && decoded@ == script && consumed == used,
                None => result == Err::<(Self, usize), BitcoinError>(
                    BitcoinError::InsufficientBytes,
                ),
            },
    {
        let (length, prefix) = match CompactSize::from_bytes(bytes) {
            Ok(decoded) => decoded,
            Err(error) => {
                return Err(error);
            },
        };
        proof {
            lemma_compact_size_parse_extends(bytes@, Seq::empty());
        }
        if ((bytes.len() - prefix) as u64) < length.value {
            return Err(BitcoinError::InsufficientBytes);
        }
        let end = prefix + length.value as usize;
        let content = slice_to_vec(slice_subrange(bytes, prefix, end));
        Ok((Script { bytes: content }, end))
    }

    /// The number of bytes in the script.
    pub fn len(&self) -> (length: usize)
        ensures
            length == self@.bytes.len(),
    {
        self.bytes.len()
    }

    /// Whether the script has no bytes.
    pub fn is_empty(&self) -> (empty: bool)
        ensures
            empty <==> self@.bytes.len() == 0,
    {
        self.bytes.len() == 0
    }

    /// The byte at `index`, or `None` beyond the end.
    pub fn byte_at(&self, index: usize) -> (byte: Option<u8>)
        ensures
            byte == if index < self@.bytes.len() {
                Some(self@.bytes[index as int])
            } else {
                None
            },
    {
        if index < self.bytes.len() {
            Some(self.bytes[index])
        } else {
            None
        }
    }

    /// The bytes of the script, for reading.
    pub fn as_slice(&self) -> (bytes: &[u8])
        ensures
            bytes@ == self@.bytes,
    {
        self.bytes.as_slice()
    }

    /// Every script holds a well-formed value.
    pub proof fn lemma_view_well_formed(self)
        ensures
            self@.well_formed(),
    {
        assert(self.bytes@.len() == self.bytes.len());
    }
}

/// Decoding an encoded script gives the script back and consumes exactly its
/// encoding, whatever bytes follow it.
pub proof fn lemma_script_round_trip(script: ScriptView, rest: Seq<u8>)
    requires
        script.well_formed(),
    ensures
        ScriptView::parse(script.wire()) == Some((script, script.wire().len())),
        ScriptView::parse(script.wire() + rest) == Some((script, script.wire().len())),
{
    let length = CompactSize { value: script.bytes.len() as u64 };
    let prefix = length.wire();
    let wire = script.wire();
    let start = prefix.len() as int;
    let end = start + script.bytes.len();
    lemma_compact_size_round_trip(length, script.bytes);
    lemma_compact_size_round_trip(length, script.bytes + rest);
    assert(wire + rest =~= prefix + (script.bytes + rest));
    assert(wire.subrange(start, end) =~= script.bytes);
    assert((wire + rest).subrange(start, end) =~= script.bytes);
}

/// An encoding is as long as the narrowest form of the script's length and
/// the script together.
pub proof fn lemma_script_wire_len(script: ScriptView)
    requires
        script.well_formed(),
    ensures
        script.wire().len() == (CompactSize { value: script.bytes.len() as u64 }).encoded_len()
            + script.bytes.len(),
{
    lemma_compact_size_wire_len(CompactSize { value: script.bytes.len() as u64 });
}

/// What a successful decode consumed lies within the input, and the decode
/// gives the same result when more bytes follow.
pub proof fn lemma_script_parse_extends(s: Seq<u8>, rest: Seq<u8>)
    requires
        ScriptView::parse(s) is Some,
    ensures
        1 <= ScriptView::parse(s).unwrap().1 <= s.len(),
        ScriptView::parse(s + rest) == ScriptView::parse(s),
{
    lemma_compact_size_parse_extends(s, rest);
    let (length, prefix) = CompactSize::parse(s).unwrap();
    assert((s + rest).subrange(prefix as int, prefix + length.value) =~= s.subrange(
        prefix as int,
        prefix + length.value,
    ));
}

/// An encoding with any number of bytes cut off its end does not decode.
pub proof fn lemma_script_truncated(script: ScriptView, keep: int)
    requires
        script.well_formed(),
        0 <= keep < script.wire().len(),
    ensures
        ScriptView::parse(script.wire().subrange(0, keep)) is None,
{
    let wire = script.wire();
    let cut = wire.subrange(0, keep);
    if ScriptView::parse(cut) is Some {
        lemma_script_parse_extends(cut, wire.subrange(keep, wire.len() as int));
        assert(cut + wire.subrange(keep, wire.len() as int) =~= wire);
        lemma_script_round_trip(script, Seq::empty());
    }
}

} // verus!
