//! A codec for the wire format of Bitcoin-style transactions that carry inputs
//! only: compact sizes, outpoints, scripts, transaction inputs and
//! transactions, each with a byte encoding, a decoder that reports how many
//! bytes it consumed, and proofs that the two agree.

pub mod compact_size;
pub mod decimal;
pub mod endian;
pub mod error;
pub mod hex_text;
pub mod input;
pub mod outpoint;
pub mod report;
pub mod script;
pub mod transaction;
pub mod txid;

pub use compact_size::CompactSize;
pub use error::BitcoinError;
pub use input::{TransactionInput, TransactionInputView};
pub use outpoint::{OutPoint, OutPointView};
pub use script::{Script, ScriptView};
pub use transaction::{BitcoinTransaction, BitcoinTransactionView};
pub use txid::Txid;
