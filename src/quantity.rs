//! Quantities: unsigned integers of any size, written with the minimal
//! policy and read back only from their canonical text.
use crate::error::{Error, HexError};
use crate::hex::{
    hex_of, hex_prefix, lemma_bytes_of_hex_of, lemma_hex_of_append, lemma_hex_of_bytes_of, lemma_hex_of_lower,
    lemma_hex_of_zeros, lemma_trim_hex_of_nonzero, lemma_trim_nonzero, lemma_trim_zero_prefix,
    trim_zero_digits,
    all_hex, all_lower_hex, bytes_of_hex, decode_hex_digits_padded, digits_of, encode_hex_quantity,
    has_hex_prefix, hex_char_value, is_hex_char, is_lower_hex_char, pad_even, quantity_hex, strip_hex_prefix,
};
use vstd::prelude::*;
use vstd::slice::slice_to_vec;
use vstd::string::StrSliceExecFns;

verus! {

/// The canonical big-endian bytes of an unsigned integer: at least one byte,
/// and a leading zero byte only in the one-byte form of zero.
pub open spec fn is_canonical_quantity(b: Seq<u8>) -> bool {
    b.len() >= 1 && (b.len() == 1 || b[0] != 0)
}

pub open spec fn zero_text() -> Seq<char> {
    seq!['0', 'x', '0']
}

/// The bytes a quantity text stands for, or `None` where it is refused.
pub open spec fn quantity_value_of_text(s: Seq<char>) -> Option<Seq<u8>> {
    if s == zero_text() {
        Some(seq![0u8])
    } else if has_hex_prefix(s) && digits_of(s).len() > 0 && digits_of(s)[0] != '0' && all_hex(
        digits_of(s),
    ) {
        Some(bytes_of_hex(pad_even(digits_of(s))))
    } else {
        None
    }
}

/// Text that the quantity encoder can emit: `0x0`, or lower-case digits
/// after `0x` that do not start with `0`.
pub open spec fn is_canonical_quantity_text(s: Seq<char>) -> bool {
    s == zero_text() || (has_hex_prefix(s) && digits_of(s).len() > 0 && digits_of(s)[0] != '0'
        && all_lower_hex(digits_of(s)))
}

/// An unsigned integer of any size, held as its canonical big-endian bytes.
/// Two quantities are equal exactly when their values are.
#[derive(Debug, Clone, PartialEq, Eq, Hash)]
pub struct Quantity {
    bytes: Vec<u8>,
}

/// Another name for a quantity, for 256-bit amounts.
pub type Unsigned256 = Quantity;

impl View for Quantity {
    type V = Seq<u8>;

    closed spec fn view(&self) -> Seq<u8> {
        self.bytes@
    }
}

/// Minimal policy: the encoding of a quantity's big-endian bytes. Leading
/// zero bytes of the buffer do not show in the text.
pub fn encode_hex(buf: &[u8]) -> (r: String)
    ensures
        r@ == quantity_hex(buf@),
{
    encode_hex_quantity(buf)
}

pub proof fn lemma_hex_char_value(c: char)
    requires
        is_hex_char(c),
    ensures
        0 <= hex_char_value(c) < 16,
        hex_char_value(c) == 0 <==> c == '0',
{
}

impl Quantity {
    /// The value's bytes are canonical.
    pub open spec fn wf(&self) -> bool {
        is_canonical_quantity(self@)
    }

    /// A quantity from its canonical big-endian bytes.
    pub fn from_vec(buf: Vec<u8>) -> (r: Quantity)
        requires
            is_canonical_quantity(buf@),
        ensures
            r@ == buf@,
            r.wf(),
    {
        Quantity { bytes: buf }
    }

    /// A quantity from a copy of its canonical big-endian bytes.
    pub fn from_slice(buf: &[u8]) -> (r: Quantity)
        requires
            is_canonical_quantity(buf@),
        ensures
            r@ == buf@,
            r.wf(),
    {
        Quantity { bytes: slice_to_vec(buf) }
    }

    /// The value zero.
    pub fn zero() -> (r: Quantity)
        ensures
            r@ == seq![0u8],
            r.wf(),
    {
        let mut bytes: Vec<u8> = Vec::new();
        bytes.push(0);
        proof {
            assert(bytes@ =~= seq![0u8]);
        }
        Quantity { bytes }
    }

    /// The canonical big-endian bytes.
    pub fn as_bytes(&self) -> (r: &[u8])
        ensures
            r@ == self@,
    {
        self.bytes.as_slice()
    }

    /// The canonical big-endian bytes, by value.
    pub fn into_vec(self) -> (r: Vec<u8>)
        ensures
            r@ == self@,
    {
        self.bytes
    }

    /// The canonical text: `0x` and the minimal digits, `0x0` for zero.
    pub fn to_hex(&self) -> (r: String)
        ensures
            r@ == quantity_hex(self@),
    {
        encode_hex(self.bytes.as_slice())
    }

    /// Reads a quantity. `0x0` is zero; otherwise the digits after `0x`
    /// must not start with `0` (`UnexpectedLeadingZeroes`), and an odd count
    /// stands for one leading zero nibble. `0x` alone holds no digit and
    /// fails with `DecodeHex`.
    pub fn from_hex(value: &str) -> (r: Result<Quantity, Error>)
        ensures
            match r {
                Ok(q) => q.wf() && quantity_value_of_text(value@) == Some(q@),
                Err(Error::InvalidHexPrefix(s)) => !has_hex_prefix(value@) && s@ == value@,
                Err(Error::UnexpectedLeadingZeroes(s)) => {
                    &&& has_hex_prefix(value@)
                    &&& value@ != zero_text()
                    &&& digits_of(value@).len() > 0
                    &&& digits_of(value@)[0] == '0'
                    &&& s@ == value@
                },
                Err(Error::DecodeHex(_)) => {
                    &&& has_hex_prefix(value@)
                    &&& (digits_of(value@).len() == 0 || (digits_of(value@)[0] != '0' && !all_hex(
                        digits_of(value@),
                    )))
                },
                Err(_) => false,
            },
    {
        let digits = strip_hex_prefix(value)?;
        let n = digits.unicode_len();
        if n == 0 {
            return Err(Error::DecodeHex(HexError::InvalidStringLength));
        }
        if digits.get_char(0) == '0' {
            if n == 1 {
                proof {
                    assert(value@ =~= zero_text());
                }
                return Ok(Quantity::zero());
            }
            proof {
                assert(value@ != zero_text()) by {
                    assert(value@.len() != 3);
                }
            }
            return Err(Error::UnexpectedLeadingZeroes(value.to_owned()));
        }
        proof {
            assert(value@ != zero_text()) by {
                if value@ == zero_text() {
                    assert(digits@[0] == value@[2]);
                }
            }
        }
        let bytes = decode_hex_digits_padded(digits)?;
        proof {
            let p = pad_even(digits@);
            lemma_hex_char_value(digits@[0]);
            if digits@.len() % 2 == 1 {
                assert(p[0] == '0' && p[1] == digits@[0]);
                lemma_hex_char_value(p[1]);
            } else {
                assert(p[0] == digits@[0]);
                lemma_hex_char_value(p[1]);
            }
            assert(bytes@.len() >= 1);
            assert(bytes@[0] != 0);
        }
        Ok(Quantity { bytes })
    }
}

impl Default for Quantity {
    /// The value zero.
    fn default() -> (r: Quantity)
        ensures
            r@ == seq![0u8],
    {
        Quantity::zero()
    }
}

/// Encoding a canonical quantity and decoding the text gives the same bytes.
pub proof fn lemma_quantity_round_trip(b: Seq<u8>)
    requires
        is_canonical_quantity(b),
    ensures
        quantity_value_of_text(quantity_hex(b)) == Some(b),
{
    if b[0] == 0 {
        assert(b =~= seq![0u8]);
        lemma_hex_of_zeros(b);
        assert(hex_of(b) =~= hex_of(b) + Seq::<char>::empty());
        lemma_trim_zero_prefix(hex_of(b), Seq::empty());
        assert(quantity_hex(b) == zero_text());
    } else {
        let t = trim_zero_digits(hex_of(b));
        let s = quantity_hex(b);
        lemma_trim_hex_of_nonzero(b);
        lemma_hex_of_lower(b);
        assert(s == hex_prefix() + t);
        assert(digits_of(s) =~= t);
        assert(s != zero_text()) by {
            if s == zero_text() {
                assert(t[0] == s[2]);
            }
        }
        assert(all_hex(t)) by {
            assert forall|i: int| 0 <= i < t.len() implies #[trigger] is_hex_char(t[i]) by {
                if hex_of(b)[0] == '0' {
                    assert(t[i] == hex_of(b)[i + 1]);
                } else {
                    assert(t[i] == hex_of(b)[i]);
                }
            }
        }
        if hex_of(b)[0] == '0' {
            assert(pad_even(t) =~= hex_of(b));
        } else {
            assert(pad_even(t) == hex_of(b));
        }
        lemma_bytes_of_hex_of(b);
    }
}

/// Decoding canonical quantity text and encoding the bytes gives the same
/// text.
pub proof fn lemma_quantity_text_round_trip(s: Seq<char>)
    requires
        is_canonical_quantity_text(s),
    ensures
        quantity_value_of_text(s) is Some,
        quantity_hex(quantity_value_of_text(s)->0) == s,
{
    if s == zero_text() {
        let b = seq![0u8];
        lemma_hex_of_zeros(b);
        assert(hex_of(b) =~= hex_of(b) + Seq::<char>::empty());
        lemma_trim_zero_prefix(hex_of(b), Seq::empty());
    } else {
        let d = digits_of(s);
        let p = pad_even(d);
        assert(all_hex(d)) by {
            assert forall|i: int| 0 <= i < d.len() implies #[trigger] is_hex_char(d[i]) by {
                assert(is_lower_hex_char(d[i]));
            }
        }
        assert(all_lower_hex(p)) by {
            assert forall|i: int| 0 <= i < p.len() implies #[trigger] is_lower_hex_char(p[i]) by {
                if d.len() % 2 == 1 && i > 0 {
                    assert(p[i] == d[i - 1]);
                }
            }
        }
        lemma_hex_of_bytes_of(p);
        let b = bytes_of_hex(p);
        assert(hex_of(b) == p);
        lemma_trim_nonzero(d);
        if d.len() % 2 == 1 {
            lemma_trim_zero_prefix(seq!['0'], d);
        }
        assert(trim_zero_digits(p) == d);
        assert(hex_prefix() + d =~= s);
    }
}

/// Any number of zero bytes, none included, encodes as `0x0`.
pub proof fn lemma_quantity_zero_text(b: Seq<u8>)
    requires
        forall|i: int| 0 <= i < b.len() ==> b[i] == 0,
    ensures
        quantity_hex(b) == zero_text(),
{
    lemma_hex_of_zeros(b);
    assert(hex_of(b) =~= hex_of(b) + Seq::<char>::empty());
    lemma_trim_zero_prefix(hex_of(b), Seq::empty());
}

/// Zero bytes in front of a buffer do not change its quantity text.
pub proof fn lemma_quantity_hex_zero_prefix(z: Seq<u8>, b: Seq<u8>)
    requires
        forall|i: int| 0 <= i < z.len() ==> z[i] == 0,
    ensures
        quantity_hex(z + b) == quantity_hex(b),
{
    lemma_hex_of_zeros(z);
    lemma_hex_of_append(z, b);
    lemma_trim_zero_prefix(hex_of(z), hex_of(b));
}

/// Whatever a quantity text reads as is canonical.
pub proof fn lemma_quantity_value_canonical(s: Seq<char>)
    requires
        quantity_value_of_text(s) is Some,
    ensures
        is_canonical_quantity(quantity_value_of_text(s)->0),
{
    if s != zero_text() {
        let d = digits_of(s);
        let p = pad_even(d);
        lemma_hex_char_value(d[0]);
        if d.len() % 2 == 1 {
            assert(p[0] == '0' && p[1] == d[0]);
        } else {
            assert(p[0] == d[0]);
            assert(is_hex_char(p[1]));
            lemma_hex_char_value(p[1]);
        }
    }
}

} // verus!
