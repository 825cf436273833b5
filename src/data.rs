//! Variable-size byte values: any number of raw bytes, every one of them
//! kept, written with the identity policy.
use crate::error::Error;
use crate::hex::{
    all_hex, all_lower_hex, bytes_of_hex, data_hex, decode_hex_digits, digits_of, encode_hex_data,
    has_hex_prefix, hex_of, hex_prefix, is_hex_char, lemma_bytes_of_hex_of, lemma_hex_of_bytes_of,
    lemma_hex_of_lower, strip_hex_prefix,
};
use vstd::prelude::*;
use vstd::slice::slice_to_vec;

verus! {

/// The bytes a data text stands for: `0x` and an even number of hex digits.
pub open spec fn data_value_of_text(s: Seq<char>) -> Option<Seq<u8>> {
    if has_hex_prefix(s) && digits_of(s).len() % 2 == 0 && all_hex(digits_of(s)) {
        Some(bytes_of_hex(digits_of(s)))
    } else {
        None
    }
}

/// Text that the data encoder can emit.
pub open spec fn is_canonical_data_text(s: Seq<char>) -> bool {
    has_hex_prefix(s) && digits_of(s).len() % 2 == 0 && all_lower_hex(digits_of(s))
}

/// A raw byte payload of any length, empty included.
#[derive(Debug, Clone, PartialEq, Eq, Hash)]
pub struct Data {
    bytes: Vec<u8>,
}

/// Another name for a raw byte payload.
pub type Bytes = Data;

impl View for Data {
    type V = Seq<u8>;

    closed spec fn view(&self) -> Seq<u8> {
        self.bytes@
    }
}

impl Data {
    /// A payload that owns the given bytes.
    pub fn from_vec(buf: Vec<u8>) -> (r: Data)
        ensures
            r@ == buf@,
    {
        Data { bytes: buf }
    }

    /// A payload holding a copy of the given bytes.
    pub fn from_slice(buf: &[u8]) -> (r: Data)
        ensures
            r@ == buf@,
    {
        Data { bytes: slice_to_vec(buf) }
    }

    /// The empty payload.
    pub fn empty() -> (r: Data)
        ensures
            r@ == Seq::<u8>::empty(),
    {
        Data { bytes: Vec::new() }
    }

    pub fn as_bytes(&self) -> (r: &[u8])
        ensures
            r@ == self@,
    {
        self.bytes.as_slice()
    }

    pub fn into_vec(self) -> (r: Vec<u8>)
        ensures
            r@ == self@,
    {
        self.bytes
    }

    pub fn len(&self) -> (r: usize)
        ensures
            r == self@.len(),
    {
        self.bytes.len()
    }

    /// `0x` and two digits for every byte; the empty payload gives `0x`.
    pub fn to_hex(&self) -> (r: String)
        ensures
            r@ == data_hex(self@),
    {
        encode_hex_data(self.bytes.as_slice())
    }

    /// Reads a payload: `0x` and an even number of hex digits, every byte
    /// kept, leading zero bytes included.
    pub fn from_hex(value: &str) -> (r: Result<Data, Error>)
        ensures
            match r {
                Ok(d) => data_value_of_text(value@) == Some(d@),
                Err(Error::InvalidHexPrefix(s)) => !has_hex_prefix(value@) && s@ == value@,
                Err(Error::DecodeHex(_)) => has_hex_prefix(value@) && data_value_of_text(
                    value@,
                ) is None,
                Err(_) => false,
            },
    {
        let digits = strip_hex_prefix(value)?;
        let bytes = decode_hex_digits(digits)?;
        Ok(Data { bytes })
    }
}

impl Default for Data {
    /// The empty payload.
    fn default() -> (r: Data)
        ensures
            r@ == Seq::<u8>::empty(),
    {
        Data::empty()
    }
}

/// Encoding a payload and decoding the text gives every byte back.
pub proof fn lemma_data_round_trip(b: Seq<u8>)
    ensures
        data_value_of_text(data_hex(b)) == Some(b),
{
    let s = data_hex(b);
    assert(digits_of(s) =~= hex_of(b));
    lemma_hex_of_lower(b);
    lemma_bytes_of_hex_of(b);
}

/// Decoding canonical data text and encoding the bytes gives the same text.
pub proof fn lemma_data_text_round_trip(s: Seq<char>)
    requires
        is_canonical_data_text(s),
    ensures
        data_value_of_text(s) is Some,
        data_hex(data_value_of_text(s)->0) == s,
{
    let d = digits_of(s);
    assert(all_hex(d)) by {
        assert forall|i: int| 0 <= i < d.len() implies #[trigger] is_hex_char(d[i]) by {
            assert(crate::hex::is_lower_hex_char(d[i]));
        }
    }
    lemma_hex_of_bytes_of(d);
    assert(hex_prefix() + d =~= s);
}

} // verus!
