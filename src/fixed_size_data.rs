//! Fixed-size byte values: exactly `N` bytes, every one of them kept,
//! written with the identity policy.
use crate::error::Error;
use crate::hex::{
    all_hex, all_lower_hex, bytes_of_hex, data_hex, decode_hex, digits_of, encode_hex_fixed_size_data,
    has_hex_prefix, hex_of, hex_prefix, is_hex_char, is_lower_hex_char, lemma_bytes_of_hex_of,
    lemma_hex_of_bytes_of, lemma_hex_of_lower, pad_even, padded_hex_value,
};
use vstd::prelude::*;
use vstd::slice::slice_to_vec;

verus! {

/// Text that the encoder of an `n`-byte value can emit.
pub open spec fn is_canonical_fixed_text(s: Seq<char>, n: nat) -> bool {
    has_hex_prefix(s) && digits_of(s).len() == 2 * n && all_lower_hex(digits_of(s))
}

/// Exactly `N` raw bytes; zero bytes anywhere are significant.
#[derive(Debug, Clone, PartialEq, Eq, Hash)]
pub struct FixedSizeData<const N: usize> {
    bytes: Vec<u8>,
}

/// A 32-byte digest.
pub type Hash = FixedSizeData<32>;

/// A 32-byte value.
pub type Bytes32 = FixedSizeData<32>;

/// A 32-byte log topic.
pub type LogArgument = FixedSizeData<32>;

/// A 20-byte account address.
pub type Address = FixedSizeData<20>;

/// An 8-byte proof-of-work nonce.
pub type Nonce = FixedSizeData<8>;

/// A 256-byte logs bloom filter.
pub type BloomFilter = FixedSizeData<256>;

impl<const N: usize> View for FixedSizeData<N> {
    type V = Seq<u8>;

    closed spec fn view(&self) -> Seq<u8> {
        self.bytes@
    }
}

impl<const N: usize> FixedSizeData<N> {
    /// The value holds exactly `N` bytes.
    pub open spec fn wf(&self) -> bool {
        self@.len() == N
    }

    /// A value from a copy of exactly `N` bytes; `UnexpectedLength` for
    /// any other length.
    pub fn try_from_slice(buf: &[u8]) -> (r: Result<FixedSizeData<N>, Error>)
        ensures
            match r {
                Ok(v) => buf@.len() == N && v@ == buf@ && v.wf(),
                Err(Error::UnexpectedLength { expected, got }) => {
                    buf@.len() != N && expected == N && got == buf@.len()
                },
                Err(_) => false,
            },
    {
        if buf.len() != N {
            return Err(Error::UnexpectedLength { expected: N, got: buf.len() });
        }
        Ok(FixedSizeData { bytes: slice_to_vec(buf) })
    }

    /// A value that owns exactly `N` bytes; `UnexpectedLength` for any
    /// other length.
    pub fn try_from_vec(buf: Vec<u8>) -> (r: Result<FixedSizeData<N>, Error>)
        ensures
            match r {
                Ok(v) => buf@.len() == N && v@ == buf@ && v.wf(),
                Err(Error::UnexpectedLength { expected, got }) => {
                    buf@.len() != N && expected == N && got == buf@.len()
                },
                Err(_) => false,
            },
    {
        let len = buf.len();
        if len != N {
            return Err(Error::UnexpectedLength { expected: N, got: len });
        }
        Ok(FixedSizeData { bytes: buf })
    }

    /// `N` zero bytes.
    pub fn zeroed() -> (r: FixedSizeData<N>)
        ensures
            r@ == Seq::new(N as nat, |i: int| 0u8),
            r.wf(),
    {
        let mut bytes: Vec<u8> = Vec::new();
        let mut i: usize = 0;
        while i < N
            invariant
                i <= N,
                bytes@ == Seq::new(i as nat, |j: int| 0u8),
            decreases N - i,
        {
            bytes.push(0);
            i = i + 1;
            proof {
                assert(bytes@ =~= Seq::new(i as nat, |j: int| 0u8));
            }
        }
        FixedSizeData { bytes }
    }

    pub fn as_bytes(&self) -> (r: &[u8])
        ensures
            r@ == self@,
    {
        self.bytes.as_slice()
    }

    pub fn into_vec(self) -> (r: Vec<u8>)
        ensures
            r@ == self@,
    {
        self.bytes
    }

    /// `0x` and two digits for every byte.
    pub fn to_hex(&self) -> (r: String)
        ensures
            r@ == data_hex(self@),
    {
        encode_hex_fixed_size_data(self.bytes.as_slice())
    }

    /// Reads a value: `0x`, hex digits (an odd count stands for one
    /// leading zero nibble), and then exactly `N` bytes.
    pub fn from_hex(value: &str) -> (r: Result<FixedSizeData<N>, Error>)
        ensures
            match r {
                Ok(v) => v.wf() && padded_hex_value(value@) == Some(v@),
                Err(Error::InvalidHexPrefix(s)) => !has_hex_prefix(value@) && s@ == value@,
                Err(Error::DecodeHex(_)) => {
                    has_hex_prefix(value@) && padded_hex_value(value@) is None
                },
                Err(Error::UnexpectedLength { expected, got }) => {
                    &&& padded_hex_value(value@) is Some
                    &&& expected == N
                    &&& got == padded_hex_value(value@)->0.len()
                    &&& got != N
                },
                Err(_) => false,
            },
    {
        let bytes = decode_hex(value)?;
        FixedSizeData::try_from_vec(bytes)
    }
}

impl<const N: usize> Default for FixedSizeData<N> {
    /// `N` zero bytes.
    fn default() -> (r: FixedSizeData<N>)
        ensures
            r@ == Seq::new(N as nat, |i: int| 0u8),
    {
        FixedSizeData::zeroed()
    }
}

/// Encoding a fixed-size value and decoding the text gives every byte back,
/// and the length check passes.
pub proof fn lemma_fixed_round_trip(b: Seq<u8>)
    ensures
        padded_hex_value(data_hex(b)) == Some(b),
{
    let s = data_hex(b);
    assert(digits_of(s) =~= hex_of(b));
    lemma_hex_of_lower(b);
    lemma_bytes_of_hex_of(b);
}

/// Decoding canonical text of an `n`-byte value gives `n` bytes, and
/// encoding them gives the same text.
pub proof fn lemma_fixed_text_round_trip(s: Seq<char>, n: nat)
    requires
        is_canonical_fixed_text(s, n),
    ensures
        padded_hex_value(s) is Some,
        padded_hex_value(s)->0.len() == n,
        data_hex(padded_hex_value(s)->0) == s,
{
    let d = digits_of(s);
    assert(all_hex(d)) by {
        assert forall|i: int| 0 <= i < d.len() implies #[trigger] is_hex_char(d[i]) by {
            assert(is_lower_hex_char(d[i]));
        }
    }
    assert(pad_even(d) == d);
    lemma_hex_of_bytes_of(d);
    assert(hex_prefix() + d =~= s);
    assert(bytes_of_hex(d).len() == n);
}

} // verus!
