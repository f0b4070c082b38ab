//! Transaction identifiers: 32 raw bytes, with a hexadecimal text form.

use crate::error::BitcoinError;
use crate::hex_text::{
    decode_hex, encode_hex, hex_bytes, hex_text, is_hex_text, lemma_hex_round_trip,
};
use vstd::prelude::*;

verus! {

/// The identifier of a transaction. The bytes are kept in the order in which
/// they are stored, and the text form shows them in that same order.
#[derive(Debug, PartialEq, Eq, Clone)]
pub struct Txid(pub [u8; 32]);

impl View for Txid {
    type V = Seq<u8>;

    open spec fn view(&self) -> Seq<u8> {
        self.0@
    }
}

/// Whether `text` is the text form of an identifier: 64 hexadecimal digits.
pub open spec fn is_txid_text(text: Seq<char>) -> bool {
    is_hex_text(text) && text.len() == 64
}

impl Txid {
    /// Copies the 32 bytes of `bytes` that start at `start` into an identifier.
    pub(crate) fn read(bytes: &[u8], start: usize) -> (txid: Txid)
        requires
            start + 32 <= bytes.len(),
        ensures
            txid@ == bytes@.subrange(start as int, start + 32),
    {
        let mut array = [0u8; 32];
        let mut i: usize = 0;
        while i < 32
            invariant
                i <= 32,
                start + 32 <= bytes.len(),
                forall|j: int| 0 <= j < i ==> array@[j] == bytes@[start + j],
            decreases 32 - i,
        {
            array[i] = bytes[start + i];
            i += 1;
        }
        assert(array@ =~= bytes@.subrange(start as int, start + 32));
        Txid(array)
    }

    /// The identifier as 64 lowercase hexadecimal digits.
    pub fn to_hex(&self) -> (text: String)
        ensures
            text@ == hex_text(self@),
    {
        encode_hex(self.0.as_slice())
    }

    /// Reads an identifier from its text form. Digits of either case are
    /// taken; anything but 64 hexadecimal digits is refused.
    pub fn from_hex(text: &str) -> (result: Result<Txid, BitcoinError>)
        ensures
            match result {
                Ok(txid) => is_txid_text(text@) && txid@ == hex_bytes(text@),
                Err(error) => error == BitcoinError::InvalidFormat && !is_txid_text(text@),
            },
    {
        match decode_hex(text) {
            Err(_) => Err(BitcoinError::InvalidFormat),
            Ok(decoded) => {
                if decoded.len() != 32 {
                    return Err(BitcoinError::InvalidFormat);
                }
                let txid = Txid::read(decoded.as_slice(), 0);
                assert(decoded@.subrange(0, 32) =~= decoded@);
                Ok(txid)
            },
        }
    }
}

/// The text form of an identifier is read back as that identifier.
pub proof fn lemma_txid_text_round_trip(txid: Seq<u8>)
    requires
        txid.len() == 32,
    ensures
        is_txid_text(hex_text(txid)),
        hex_bytes(hex_text(txid)) == txid,
{
    lemma_hex_round_trip(txid);
}

} // verus!
