use vstd::prelude::*;

verus! {

/// Why a run of hex digits could not be turned into bytes.
#[derive(Debug, Clone, Copy, PartialEq, Eq)]
pub enum HexError {
    /// A character that is not one of `0-9`, `a-f`, `A-F`, at the given byte position.
    InvalidHexCharacter { c: char, index: usize },
    /// An odd number of digits where whole bytes were required.
    OddLength,
    /// A digit string of a length that cannot hold the value.
    InvalidStringLength,
}

/// Every failure that decoding or constructing a value can report.
#[derive(Debug, Clone, PartialEq, Eq)]
pub enum Error {
    /// A fixed-size value was given a buffer of the wrong length.
    UnexpectedLength { expected: usize, got: usize },
    /// The digits after the prefix are not valid hex.
    DecodeHex(HexError),
    /// The text does not start with `0x`; holds the text.
    InvalidHexPrefix(String),
    /// A status token outside `0x0` and `0x1`; holds the token.
    UnknownTransactionStatus(String),
    /// A transaction type token outside `0x0`, `0x1` and `0x2`; holds the token.
    UnknownTransactionType(String),
    /// A quantity written with a superfluous leading zero digit; holds the text.
    UnexpectedLeadingZeroes(String),
}

} // verus!
