//! Transactions: a version, a counted sequence of inputs and a lock time.

use crate::compact_size::{
    lemma_compact_size_parse_extends, lemma_compact_size_round_trip, CompactSize,
};
use crate::endian::{
    le_bytes, le_value, lemma_le_bytes_len, lemma_le_limits, lemma_le_value_bound,
    lemma_le_value_of_bytes, push_le, read_le,
};
use crate::error::BitcoinError;
use crate::input::{
    lemma_input_parse_extends, lemma_input_round_trip, TransactionInput, TransactionInputView,
};
use crate::outpoint::OutPointView;
use crate::script::ScriptView;
use vstd::prelude::*;
use vstd::slice::slice_subrange;

verus! {

/// A transaction, as far as this format carries one: it has inputs and no
/// outputs.
#[derive(Debug, PartialEq, Eq, Clone)]
pub struct BitcoinTransaction {
    pub version: u32,
    pub inputs: Vec<TransactionInput>,
    pub lock_time: u32,
}

/// What a transaction holds.
pub struct BitcoinTransactionView {
    pub version: u32,
    pub inputs: Seq<TransactionInputView>,
    pub lock_time: u32,
}

/// What each of a sequence of inputs holds, in the same order.
pub open spec fn input_views(inputs: Seq<TransactionInput>) -> Seq<TransactionInputView> {
    Seq::new(inputs.len(), |i: int| inputs[i]@)
}

impl View for BitcoinTransaction {
    type V = BitcoinTransactionView;

    open spec fn view(&self) -> BitcoinTransactionView {
        BitcoinTransactionView {
            version: self.version,
            inputs: input_views(self.inputs@),
            lock_time: self.lock_time,
        }
    }
}

/// The encodings of `inputs`, one behind the other.
pub open spec fn inputs_wire(inputs: Seq<TransactionInputView>) -> Seq<u8>
    decreases inputs.len(),
{
    if inputs.len() == 0 {
        Seq::empty()
    } else {
        inputs_wire(inputs.drop_last()) + inputs.last().wire()
    }
}

/// The first `count` inputs that `s` holds one behind the other, and the
/// count of bytes they take together, or `None` when one of them does not
/// decode.
pub open spec fn inputs_parse(s: Seq<u8>, count: nat) -> Option<(Seq<TransactionInputView>, nat)>
    decreases count,
{
    if count == 0 {
        Some((Seq::empty(), 0))
    } else {
        match inputs_parse(s, (count - 1) as nat) {
            None => None,
            Some((earlier, used)) => match TransactionInputView::parse(s.skip(used as int)) {
                None => None,
                Some((input, more)) => Some((earlier.push(input), used + more)),
            },
        }
    }
}

impl BitcoinTransactionView {
    /// The number of inputs can be written as a compact size, and each input
    /// is well formed.
    pub open spec fn well_formed(self) -> bool {
        &&& self.inputs.len() <= u64::MAX
        &&& forall|i: int| 0 <= i < self.inputs.len() ==> (#[trigger] self.inputs[i]).well_formed()
    }

    /// The bytes that stand for the transaction: the version, the number of
    /// inputs as a compact size, the inputs in order, then the lock time. The
    /// version and the lock time are in little-endian order.
    pub open spec fn wire(self) -> Seq<u8> {
        le_bytes(self.version as nat, 4) + CompactSize { value: self.inputs.len() as u64 }.wire()
            + inputs_wire(self.inputs) + le_bytes(self.lock_time as nat, 4)
    }

    /// The transaction at the front of `s` and the count of bytes it takes, or
    /// `None` when `s` ends before the version, the number of inputs, one of
    /// that many inputs or the lock time is complete.
    pub open spec fn parse(s: Seq<u8>) -> Option<(BitcoinTransactionView, nat)> {
        if s.len() < 4 {
            None
        } else {
            match CompactSize::parse(s.skip(4)) {
                None => None,
                Some((count, prefix)) => match inputs_parse(
                    s.skip(4 + prefix as int),
                    count.value as nat,
                ) {
                    None => None,
                    Some((inputs, used)) => {
                        let end = (4 + prefix + used) as int;
                        if s.len() < end + 4 {
                            None
                        } else {
                            Some(
                                (
                                    BitcoinTransactionView {
                                        version: le_value(s.subrange(0, 4)) as u32,
                                        inputs,
                                        lock_time: le_value(s.subrange(end, end + 4)) as u32,
                                    },
                                    (end + 4) as nat,
                                ),
                            )
                        }
                    },
                },
            }
        }
    }
}

impl BitcoinTransaction {
    pub fn new(version: u32, inputs: Vec<TransactionInput>, lock_time: u32) -> (transaction: Self)
        ensures
            transaction.version == version,
            transaction.inputs == inputs,
            transaction.lock_time == lock_time,
    {
        BitcoinTransaction { version, inputs, lock_time }
    }

    /// Encodes the transaction.
    pub fn to_bytes(&self) -> (bytes: Vec<u8>)
        ensures
            bytes@ == self@.wire(),
    {
        let mut bytes = Vec::new();
        push_le(&mut bytes, self.version as u64, 4);
        let input_count = CompactSize::new(self.inputs.len() as u64);
        let count_bytes = input_count.to_bytes();
        bytes.extend_from_slice(count_bytes.as_slice());
        let ghost head = le_bytes(self.version as nat, 4) + input_count.wire();
        assert(bytes@ =~= head);
        let mut i: usize = 0;
        while i < self.inputs.len()
            invariant
                i <= self.inputs.len(),
                bytes@ == head + inputs_wire(self@.inputs.take(i as int)),
            decreases self.inputs.len() - i,
        {
            let input_bytes = self.inputs[i].to_bytes();
            bytes.extend_from_slice(input_bytes.as_slice());
            proof {
                let done = self@.inputs.take(i + 1);
                assert(done.drop_last() =~= self@.inputs.take(i as int));
                assert(done.last() == self.inputs[i as int]@);
                assert(bytes@ =~= head + inputs_wire(done));
            }
            i += 1;
        }
        assert(self@.inputs.take(i as int) =~= self@.inputs);
        push_le(&mut bytes, self.lock_time as u64, 4);
        bytes
    }

    /// Decodes the transaction at the front of `bytes` and reports how many
    /// bytes it took. The version is read first, then the number of inputs,
    /// then that many inputs one behind the other, then the lock time; the
    /// first part that does not decode ends the call with its error.
    pub fn from_bytes(bytes: &[u8]) -> (result: Result<(Self, usize), BitcoinError>)
        ensures
            match BitcoinTransactionView::parse(bytes@) {
                Some((transaction, used)) => result matches Ok((decoded, consumed))
                    && decoded@ == transaction && consumed == used,
                None => result == Err::<(Self, usize), BitcoinError>(
                    BitcoinError::InsufficientBytes,
                ),
            },
    {
        if bytes.len() < 4 {
            return Err(BitcoinError::InsufficientBytes);
        }
        let version = read_le(bytes, 0, 4);
        let behind = slice_subrange(bytes, 4, bytes.len());
        let (input_count, input_count_size) = match CompactSize::from_bytes(behind) {
            Ok(decoded) => decoded,
            Err(error) => {
                return Err(error);
            },
        };
        proof {
            lemma_compact_size_parse_extends(behind@, Seq::empty());
        }
        let start = 4 + input_count_size;
        let ghost body = bytes@.skip(start as int);
        let mut inputs: Vec<TransactionInput> = Vec::new();
        let mut offset = start;
        let mut i: u64 = 0;
        assert(input_views(inputs@) =~= Seq::empty());
        while i < input_count.value
            invariant
                i <= input_count.value,
                start <= offset <= bytes.len(),
                start == 4 + input_count_size,
                CompactSize::parse(bytes@.skip(4)) == Some((input_count, input_count_size as nat)),
                body == bytes@.skip(start as int),
                inputs_parse(body, i as nat) == Some((input_views(inputs@), (offset - start) as nat)),
            decreases input_count.value - i,
        {
            let rest = slice_subrange(bytes, offset, bytes.len());
            assert(rest@ =~= body.skip(offset - start));
            match TransactionInput::from_bytes(rest) {
                Err(error) => {
                    proof {
                        assert(inputs_parse(body, (i + 1) as nat) is None);
                        lemma_inputs_parse_stays_none(body, (i + 1) as nat, input_count.value as nat);
                    }
                    return Err(error);
                },
                Ok((input, input_size)) => {
                    proof {
                        lemma_input_parse_extends(rest@, Seq::empty());
                        assert(input_views(inputs@.push(input)) =~= input_views(inputs@).push(
                            input@,
                        ));
                    }
                    inputs.push(input);
                    offset += input_size;
                },
            }
            i += 1;
        }
        if bytes.len() - offset < 4 {
            return Err(BitcoinError::InsufficientBytes);
        }
        let lock_time = read_le(bytes, offset, 4);
        proof {
            lemma_le_value_bound(bytes@.subrange(0, 4));
            lemma_le_value_bound(bytes@.subrange(offset as int, offset + 4));
            lemma_le_limits();
        }
        Ok(
            (
                BitcoinTransaction {
                    version: version as u32,
                    inputs,
                    lock_time: lock_time as u32,
                },
                offset + 4,
            ),
        )
    }

    /// Every transaction holds a well-formed value.
    pub proof fn lemma_view_well_formed(self)
        ensures
            self@.well_formed(),
    {
        assert(self.inputs@.len() == self.inputs.len());
        assert forall|i: int| 0 <= i < self@.inputs.len() implies (#[trigger] self@.inputs[i]).well_formed() by {
            self.inputs@[i].lemma_view_well_formed();
        }
    }
}

/// Once one of the inputs does not decode, asking for more of them does not
/// help.
pub proof fn lemma_inputs_parse_stays_none(s: Seq<u8>, failed: nat, count: nat)
    requires
        failed <= count,
        inputs_parse(s, failed) is None,
    ensures
        inputs_parse(s, count) is None,
    decreases count,
{
    if failed < count {
        lemma_inputs_parse_stays_none(s, failed, (count - 1) as nat);
    }
}

/// Decoding as many inputs as were encoded one behind the other gives them
/// back and consumes exactly their encodings, whatever bytes follow.
pub proof fn lemma_inputs_round_trip(inputs: Seq<TransactionInputView>, rest: Seq<u8>)
    requires
        forall|i: int| 0 <= i < inputs.len() ==> (#[trigger] inputs[i]).well_formed(),
    ensures
        inputs_parse(inputs_wire(inputs) + rest, inputs.len()) == Some(
            (inputs, inputs_wire(inputs).len()),
        ),
    decreases inputs.len(),
{
    if inputs.len() > 0 {
        let earlier = inputs.drop_last();
        let last = inputs.last();
        let s = inputs_wire(inputs) + rest;
        lemma_inputs_round_trip(earlier, last.wire() + rest);
        assert(s =~= inputs_wire(earlier) + (last.wire() + rest));
        assert(s.skip(inputs_wire(earlier).len() as int) =~= last.wire() + rest);
        lemma_input_round_trip(last, rest);
        assert(earlier.push(last) =~= inputs);
    }
}

/// What a successful decode of inputs consumed lies within the bytes given,
/// and the decode gives the same result when more bytes follow.
pub proof fn lemma_inputs_parse_extends(s: Seq<u8>, count: nat, rest: Seq<u8>)
    requires
        inputs_parse(s, count) is Some,
    ensures
        inputs_parse(s, count).unwrap().1 <= s.len(),
        inputs_parse(s, count).unwrap().0.len() == count,
        inputs_parse(s + rest, count) == inputs_parse(s, count),
    decreases count,
{
    if count > 0 {
        lemma_inputs_parse_extends(s, (count - 1) as nat, rest);
        let used = inputs_parse(s, (count - 1) as nat).unwrap().1;
        lemma_input_parse_extends(s.skip(used as int), rest);
        assert((s + rest).skip(used as int) =~= s.skip(used as int) + rest);
    }
}

/// Decoding an encoded transaction gives the transaction back and consumes
/// exactly its encoding, whatever bytes follow it.
pub proof fn lemma_transaction_round_trip(transaction: BitcoinTransactionView, rest: Seq<u8>)
    requires
        transaction.well_formed(),
    ensures
        BitcoinTransactionView::parse(transaction.wire()) == Some(
            (transaction, transaction.wire().len()),
        ),
        BitcoinTransactionView::parse(transaction.wire() + rest) == Some(
            (transaction, transaction.wire().len()),
        ),
{
    lemma_transaction_round_trip_followed(transaction, Seq::empty());
    lemma_transaction_round_trip_followed(transaction, rest);
    assert(transaction.wire() + Seq::<u8>::empty() =~= transaction.wire());
}

proof fn lemma_transaction_round_trip_followed(transaction: BitcoinTransactionView, rest: Seq<u8>)
    requires
        transaction.well_formed(),
    ensures
        BitcoinTransactionView::parse(transaction.wire() + rest) == Some(
            (transaction, transaction.wire().len()),
        ),
{
    let version = le_bytes(transaction.version as nat, 4);
    let count = CompactSize { value: transaction.inputs.len() as u64 };
    let inputs = inputs_wire(transaction.inputs);
    let lock_time = le_bytes(transaction.lock_time as nat, 4);
    let s = transaction.wire() + rest;
    lemma_le_limits();
    lemma_le_bytes_len(transaction.version as nat, 4);
    lemma_le_bytes_len(transaction.lock_time as nat, 4);
    lemma_le_value_of_bytes(transaction.version as nat, 4);
    lemma_le_value_of_bytes(transaction.lock_time as nat, 4);
    assert(s.subrange(0, 4) =~= version);
    lemma_compact_size_round_trip(count, inputs + lock_time + rest);
    assert(s.skip(4) =~= count.wire() + (inputs + lock_time + rest));
    let prefix = count.wire().len() as int;
    lemma_inputs_round_trip(transaction.inputs, lock_time + rest);
    assert(s.skip(4 + prefix) =~= inputs + (lock_time + rest));
    let end = 4 + prefix + inputs.len();
    assert(s.subrange(end, end + 4) =~= lock_time);
}

/// What a successful decode consumed lies within the input, and the decode
/// gives the same result when more bytes follow.
pub proof fn lemma_transaction_parse_extends(s: Seq<u8>, rest: Seq<u8>)
    requires
        BitcoinTransactionView::parse(s) is Some,
    ensures
        BitcoinTransactionView::parse(s).unwrap().1 <= s.len(),
        BitcoinTransactionView::parse(s + rest) == BitcoinTransactionView::parse(s),
{
    assert((s + rest).subrange(0, 4) =~= s.subrange(0, 4));
    lemma_compact_size_parse_extends(s.skip(4), rest);
    assert((s + rest).skip(4) =~= s.skip(4) + rest);
    let (count, prefix) = CompactSize::parse(s.skip(4)).unwrap();
    lemma_inputs_parse_extends(s.skip(4 + prefix as int), count.value as nat, rest);
    assert((s + rest).skip(4 + prefix as int) =~= s.skip(4 + prefix as int) + rest);
    let used = inputs_parse(s.skip(4 + prefix as int), count.value as nat).unwrap().1;
    let end = (4 + prefix + used) as int;
    assert((s + rest).subrange(end, end + 4) =~= s.subrange(end, end + 4));
}

/// No decoder takes anything from an input without bytes.
pub proof fn lemma_empty_input_refused()
    ensures
        CompactSize::parse(Seq::empty()) is None,
        OutPointView::parse(Seq::empty()) is None,
        ScriptView::parse(Seq::empty()) is None,
        TransactionInputView::parse(Seq::empty()) is None,
        BitcoinTransactionView::parse(Seq::empty()) is None,
{
}

/// An encoding with any number of bytes cut off its end does not decode.
pub proof fn lemma_transaction_truncated(transaction: BitcoinTransactionView, keep: int)
    requires
        transaction.well_formed(),
        0 <= keep < transaction.wire().len(),
    ensures
        BitcoinTransactionView::parse(transaction.wire().subrange(0, keep)) is None,
{
    let wire = transaction.wire();
    let cut = wire.subrange(0, keep);
    if BitcoinTransactionView::parse(cut) is Some {
        lemma_transaction_parse_extends(cut, wire.subrange(keep, wire.len() as int));
        assert(cut + wire.subrange(keep, wire.len() as int) =~= wire);
        lemma_transaction_round_trip(transaction, Seq::empty());
    }
}

} // verus!
