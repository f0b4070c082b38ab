//! Transaction inputs: the outpoint that is spent, the script that unlocks
//! it, and a sequence number.

use crate::endian::{
    le_bytes, le_value, lemma_le_bytes_len, lemma_le_limits, lemma_le_value_bound,
    lemma_le_value_of_bytes, push_le, read_le,
};
use crate::error::BitcoinError;
use crate::outpoint::{
    lemma_outpoint_parse_extends, lemma_outpoint_round_trip, OutPoint, OutPointView,
};
use crate::script::{lemma_script_parse_extends, lemma_script_round_trip, Script, ScriptView};
use vstd::prelude::*;
use vstd::slice::slice_subrange;

verus! {

/// One input of a transaction.
#[derive(Debug, PartialEq, Eq, Clone)]
pub struct TransactionInput {
    pub previous_output: OutPoint,
    pub script_sig: Script,
    pub sequence: u32,
}

/// What a transaction input holds.
pub struct TransactionInputView {
    pub previous_output: OutPointView,
    pub script_sig: ScriptView,
    pub sequence: u32,
}

impl View for TransactionInput {
    type V = TransactionInputView;

    open spec fn view(&self) -> TransactionInputView {
        TransactionInputView {
            previous_output: self.previous_output@,
            script_sig: self.script_sig@,
            sequence: self.sequence,
        }
    }
}

impl TransactionInputView {
    /// The outpoint and the script are well formed.
    pub open spec fn well_formed(self) -> bool {
        self.previous_output.well_formed() && self.script_sig.well_formed()
    }

    /// The bytes that stand for the input: the outpoint, the script, then the
    /// sequence number in little-endian order.
    pub open spec fn wire(self) -> Seq<u8> {
        self.previous_output.wire() + self.script_sig.wire() + le_bytes(self.sequence as nat, 4)
    }

    /// The input at the front of `s` and the count of bytes it takes, or
    /// `None` when the outpoint or the script does not decode or fewer than
    /// four bytes follow them.
    pub open spec fn parse(s: Seq<u8>) -> Option<(TransactionInputView, nat)> {
        match OutPointView::parse(s) {
            None => None,
            Some((previous_output, first)) => match ScriptView::parse(s.skip(first as int)) {
                None => None,
                Some((script_sig, second)) => {
                    let start = (first + second) as int;
                    if s.len() < start + 4 {
                        None
                    } else {
                        Some(
                            (
                                TransactionInputView {
                                    previous_output,
                                    script_sig,
                                    sequence: le_value(s.subrange(start, start + 4)) as u32,
                                },
                                (start + 4) as nat,
                            ),
                        )
                    }
                },
            },
        }
    }
}

impl TransactionInput {
    pub fn new(previous_output: OutPoint, script_sig: Script, sequence: u32) -> (input: Self)
        ensures
            input.previous_output == previous_output,
            input.script_sig == script_sig,
            input.sequence == sequence,
    {
        TransactionInput { previous_output, script_sig, sequence }
    }

    /// Encodes the input.
    pub fn to_bytes(&self) -> (bytes: Vec<u8>)
        ensures
            bytes@ == self@.wire(),
    {
        let mut bytes = self.previous_output.to_bytes();
        let script = self.script_sig.to_bytes();
        bytes.extend_from_slice(script.as_slice());
        assert(bytes@ =~= self@.previous_output.wire() + self@.script_sig.wire());
        push_le(&mut bytes, self.sequence as u64, 4);
        bytes
    }

    /// Decodes the input at the front of `bytes` and reports how many bytes
    /// it took. The outpoint is read first, the script directly behind it,
    /// then the sequence number; the first part that does not decode ends the
    /// call with its error.
    pub fn from_bytes(bytes: &[u8]) -> (result: Result<(Self, usize), BitcoinError>)
        ensures
            match TransactionInputView::parse(bytes@) {
                Some((input, used)) => result matches Ok((decoded, consumed))
                    && decoded@ == input && consumed == used,
                None => result == Err::<(Self, usize), BitcoinError>(
                    BitcoinError::InsufficientBytes,
                ),
            },
    {
        let (previous_output, outpoint_size) = match OutPoint::from_bytes(bytes) {
            Ok(decoded) => decoded,
            Err(error) => {
                return Err(error);
            },
        };
        let behind = slice_subrange(bytes, outpoint_size, bytes.len());
        let (script_sig, script_size) = match Script::from_bytes(behind) {
            Ok(decoded) => decoded,
            Err(error) => {
                return Err(error);
            },
        };
        proof {
            lemma_script_parse_extends(behind@, Seq::empty());
        }
        let sequence_start = outpoint_size + script_size;
        if bytes.len() - sequence_start < 4 {
            return Err(BitcoinError::InsufficientBytes);
        }
        let sequence = read_le(bytes, sequence_start, 4);
        proof {
            lemma_le_value_bound(bytes@.subrange(sequence_start as int, sequence_start + 4));
            lemma_le_limits();
        }
        Ok(
            (
                TransactionInput { previous_output, script_sig, sequence: sequence as u32 },
                sequence_start + 4,
            ),
        )
    }

    /// Every input holds a well-formed value.
    pub proof fn lemma_view_well_formed(self)
        ensures
            self@.well_formed(),
    {
        self.previous_output.lemma_view_well_formed();
        self.script_sig.lemma_view_well_formed();
    }
}

/// Decoding an encoded input gives the input back and consumes exactly its
/// encoding, whatever bytes follow it.
pub proof fn lemma_input_round_trip(input: TransactionInputView, rest: Seq<u8>)
    requires
        input.well_formed(),
    ensures
        TransactionInputView::parse(input.wire()) == Some((input, input.wire().len())),
        TransactionInputView::parse(input.wire() + rest) == Some((input, input.wire().len())),
{
    lemma_input_round_trip_followed(input, Seq::empty());
    lemma_input_round_trip_followed(input, rest);
    assert(input.wire() + Seq::<u8>::empty() =~= input.wire());
}

proof fn lemma_input_round_trip_followed(input: TransactionInputView, rest: Seq<u8>)
    requires
        input.well_formed(),
    ensures
        TransactionInputView::parse(input.wire() + rest) == Some((input, input.wire().len())),
{
    let outpoint = input.previous_output.wire();
    let script = input.script_sig.wire();
    let sequence = le_bytes(input.sequence as nat, 4);
    let s = input.wire() + rest;
    lemma_le_limits();
    lemma_le_bytes_len(input.sequence as nat, 4);
    lemma_le_value_of_bytes(input.sequence as nat, 4);
    lemma_outpoint_round_trip(input.previous_output, script + sequence + rest);
    assert(s =~= outpoint + (script + sequence + rest));
    lemma_script_round_trip(input.script_sig, sequence + rest);
    assert(s.skip(36) =~= script + (sequence + rest));
    let start = 36 + script.len() as int;
    assert(s.subrange(start, start + 4) =~= sequence);
}

/// An encoding is as long as its parts together: 36 bytes of outpoint, the
/// encoded script, and 4 bytes of sequence number.
pub proof fn lemma_input_wire_len(input: TransactionInputView)
    requires
        input.well_formed(),
    ensures
        input.wire().len() == 36 + input.script_sig.wire().len() + 4,
{
    lemma_le_bytes_len(input.previous_output.vout as nat, 4);
    lemma_le_bytes_len(input.sequence as nat, 4);
}

/// What a successful decode consumed lies within the input, and the decode
/// gives the same result when more bytes follow.
pub proof fn lemma_input_parse_extends(s: Seq<u8>, rest: Seq<u8>)
    requires
        TransactionInputView::parse(s) is Some,
    ensures
        1 <= TransactionInputView::parse(s).unwrap().1 <= s.len(),
        TransactionInputView::parse(s + rest) == TransactionInputView::parse(s),
{
    lemma_outpoint_parse_extends(s, rest);
    let first = OutPointView::parse(s).unwrap().1;
    lemma_script_parse_extends(s.skip(first as int), rest);
    assert((s + rest).skip(first as int) =~= s.skip(first as int) + rest);
    let second = ScriptView::parse(s.skip(first as int)).unwrap().1;
    let start = (first + second) as int;
    assert((s + rest).subrange(start as int, start + 4) =~= s.subrange(start, start + 4));
}

/// An encoding with any number of bytes cut off its end does not decode.
pub proof fn lemma_input_truncated(input: TransactionInputView, keep: int)
    requires
        input.well_formed(),
        0 <= keep < input.wire().len(),
    ensures
        TransactionInputView::parse(input.wire().subrange(0, keep)) is None,
{
    let wire = input.wire();
    let cut = wire.subrange(0, keep);
    if TransactionInputView::parse(cut) is Some {
        lemma_input_parse_extends(cut, wire.subrange(keep, wire.len() as int));
        assert(cut + wire.subrange(keep, wire.len() as int) =~= wire);
        lemma_input_round_trip(input, Seq::empty());
    }
}

} // verus!
