use vstd::prelude::*;

verus! {

/// Why a decode was refused.
#[derive(Debug, PartialEq, Eq, Clone, Copy)]
pub enum BitcoinError {
    /// The input ends before a field that the format requires.
    InsufficientBytes,
    /// The input has the right size but is not what the format allows.
    InvalidFormat,
}

} // verus!
