//! Outpoints: a transaction identifier and the index of one of that
//! transaction's outputs, 36 bytes on the wire.

use crate::endian::{
    le_bytes, le_value, lemma_le_bytes_len, lemma_le_limits, lemma_le_value_bound,
    lemma_le_value_of_bytes, push_le, read_le,
};
use crate::error::BitcoinError;
use crate::txid::Txid;
use vstd::prelude::*;

verus! {

/// A reference to an output of an earlier transaction.
#[derive(Debug, PartialEq, Eq, Clone)]
pub struct OutPoint {
    pub txid: Txid,
    pub vout: u32,
}

/// What an outpoint holds.
pub struct OutPointView {
    pub txid: Seq<u8>,
    pub vout: u32,
}

impl View for OutPoint {
    type V = OutPointView;

    open spec fn view(&self) -> OutPointView {
        OutPointView { txid: self.txid@, vout: self.vout }
    }
}

impl OutPointView {
    /// The identifier has its 32 bytes.
    pub open spec fn well_formed(self) -> bool {
        self.txid.len() == 32
    }

    /// The 36 bytes that stand for the outpoint: the identifier as it is, then
    /// the index in little-endian order.
    pub open spec fn wire(self) -> Seq<u8> {
        self.txid + le_bytes(self.vout as nat, 4)
    }

    /// The outpoint at the front of `s` and the 36 bytes it takes, or `None`
    /// when `s` is shorter than that.
    pub open spec fn parse(s: Seq<u8>) -> Option<(OutPointView, nat)> {
        if s.len() < 36 {
            None
        } else {
            Some(
                (
                    OutPointView {
                        txid: s.subrange(0, 32),
                        vout: le_value(s.subrange(32, 36)) as u32,
                    },
                    36,
                ),
            )
        }
    }
}

impl OutPoint {
    pub fn new(txid: [u8; 32], vout: u32) -> (outpoint: Self)
        ensures
            outpoint.txid.0 == txid,
            outpoint.vout == vout,
    {
        OutPoint { txid: Txid(txid), vout }
    }

    /// Encodes the outpoint, which takes 36 bytes.
    pub fn to_bytes(&self) -> (bytes: Vec<u8>)
        ensures
            bytes@ == self@.wire(),
            bytes@.len() == 36,
    {
        let mut bytes = Vec::new();
        bytes.extend_from_slice(self.txid.0.as_slice());
        assert(bytes@ =~= self.txid@);
        push_le(&mut bytes, self.vout as u64, 4);
        proof {
            lemma_le_bytes_len(self.vout as nat, 4);
        }
        bytes
    }

    /// Decodes the outpoint at the front of `bytes`, which takes 36 bytes.
    /// Fails exactly when `bytes` is shorter than that.
    pub fn from_bytes(bytes: &[u8]) -> (result: Result<(Self, usize), BitcoinError>)
        ensures
            match OutPointView::parse(bytes@) {
                Some((outpoint, used)) => result matches Ok((decoded, consumed))
                    && decoded@ == outpoint && consumed == used,
                None => result == Err::<(Self, usize), BitcoinError>(
                    BitcoinError::InsufficientBytes,
                ),
            },
    {
        if bytes.len() < 36 {
            return Err(BitcoinError::InsufficientBytes);
        }
        let txid = Txid::read(bytes, 0);
        let vout = read_le(bytes, 32, 4);
        proof {
            lemma_le_value_bound(bytes@.subrange(32, 36));
            lemma_le_limits();
        }
        Ok((OutPoint { txid, vout: vout as u32 }, 36))
    }

    /// Every outpoint holds a well-formed value.
    pub proof fn lemma_view_well_formed(self)
        ensures
            self@.well_formed(),
    {
    }
}

/// Decoding an encoded outpoint gives the outpoint back and consumes exactly
/// its encoding, whatever bytes follow it.
pub proof fn lemma_outpoint_round_trip(outpoint: OutPointView, rest: Seq<u8>)
    requires
        outpoint.well_formed(),
    ensures
        outpoint.wire().len() == 36,
        OutPointView::parse(outpoint.wire()) == Some((outpoint, outpoint.wire().len())),
        OutPointView::parse(outpoint.wire() + rest) == Some((outpoint, outpoint.wire().len())),
{
    let wire = outpoint.wire();
    let index = le_bytes(outpoint.vout as nat, 4);
    lemma_le_limits();
    lemma_le_bytes_len(outpoint.vout as nat, 4);
    lemma_le_value_of_bytes(outpoint.vout as nat, 4);
    assert(wire.subrange(0, 32) =~= outpoint.txid);
    assert(wire.subrange(32, 36) =~= index);
    assert((wire + rest).subrange(0, 32) =~= outpoint.txid);
    assert((wire + rest).subrange(32, 36) =~= index);
}

/// What a successful decode consumed lies within the input, and the decode
/// gives the same result when more bytes follow.
pub proof fn lemma_outpoint_parse_extends(s: Seq<u8>, rest: Seq<u8>)
    requires
        OutPointView::parse(s) is Some,
    ensures
        OutPointView::parse(s).unwrap().1 <= s.len(),
        OutPointView::parse(s + rest) == OutPointView::parse(s),
{
    assert((s + rest).subrange(0, 32) =~= s.subrange(0, 32));
    assert((s + rest).subrange(32, 36) =~= s.subrange(32, 36));
}

/// An encoding with any number of bytes cut off its end does not decode.
pub proof fn lemma_outpoint_truncated(outpoint: OutPointView, keep: int)
    requires
        outpoint.well_formed(),
        0 <= keep < outpoint.wire().len(),
    ensures
        OutPointView::parse(outpoint.wire().subrange(0, keep)) is None,
{
    lemma_le_bytes_len(outpoint.vout as nat, 4);
}

} // verus!
