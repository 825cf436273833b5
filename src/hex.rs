//! The hex primitive codec: the `0x` prefix, digit transcoding, and the two
//! encoding policies (identity for byte values, minimal for integers).
use crate::error::{Error, HexError};
use vstd::prelude::*;
use vstd::string::{StrSliceExecFns, StringExecFns, StringSliceAdditionalSpecFns};

verus! {

// ---------------------------------------------------------------------
// Model
// ---------------------------------------------------------------------

/// The lower-case hex digit of a nibble.
pub open spec fn hex_digit(n: u8) -> char {
    if n < 10 {
        (48u8 + n) as char
    } else {
        (87u8 + n) as char
    }
}

/// A digit that hex decoding accepts, in either case.
pub open spec fn is_hex_char(c: char) -> bool {
    ('0' <= c && c <= '9') || ('a' <= c && c <= 'f') || ('A' <= c && c <= 'F')
}

/// A digit that the encoders emit.
pub open spec fn is_lower_hex_char(c: char) -> bool {
    ('0' <= c && c <= '9') || ('a' <= c && c <= 'f')
}

/// The nibble a hex digit stands for.
pub open spec fn hex_char_value(c: char) -> int {
    if '0' <= c && c <= '9' {
        c as int - 48
    } else if 'a' <= c && c <= 'f' {
        c as int - 87
    } else {
        c as int - 55
    }
}

pub open spec fn all_hex(s: Seq<char>) -> bool {
    forall|i: int| 0 <= i < s.len() ==> #[trigger] is_hex_char(s[i])
}

pub open spec fn all_lower_hex(s: Seq<char>) -> bool {
    forall|i: int| 0 <= i < s.len() ==> #[trigger] is_lower_hex_char(s[i])
}

/// Bytes as hex digits: two lower-case digits per byte, high nibble first.
pub open spec fn hex_of(b: Seq<u8>) -> Seq<char> {
    Seq::new(
        2 * b.len(),
        |i: int|
            if i % 2 == 0 {
                hex_digit(b[i / 2] / 16)
            } else {
                hex_digit(b[i / 2] % 16)
            },
    )
}

/// The bytes that a run of an even number of hex digits stands for.
pub open spec fn bytes_of_hex(s: Seq<char>) -> Seq<u8> {
    Seq::new(
        s.len() / 2,
        |i: int| (hex_char_value(s[2 * i]) * 16 + hex_char_value(s[2 * i + 1])) as u8,
    )
}

pub open spec fn hex_prefix() -> Seq<char> {
    seq!['0', 'x']
}

pub open spec fn has_hex_prefix(s: Seq<char>) -> bool {
    s.len() >= 2 && s[0] == '0' && s[1] == 'x'
}

/// What follows the `0x` prefix.
pub open spec fn digits_of(s: Seq<char>) -> Seq<char> {
    s.subrange(2, s.len() as int)
}

/// One leading `0` nibble where the digit count is odd.
pub open spec fn pad_even(d: Seq<char>) -> Seq<char> {
    if d.len() % 2 == 1 {
        seq!['0'] + d
    } else {
        d
    }
}

/// The digits without their leading `0` digits.
pub open spec fn trim_zero_digits(d: Seq<char>) -> Seq<char>
    decreases d.len(),
{
    if d.len() > 0 && d[0] == '0' {
        trim_zero_digits(d.drop_first())
    } else {
        d
    }
}

/// Identity policy: `0x` and two digits for every byte.
pub open spec fn data_hex(b: Seq<u8>) -> Seq<char> {
    hex_prefix() + hex_of(b)
}

/// Minimal policy: `0x` and the digits without leading zeros, or `0x0`.
pub open spec fn quantity_hex(b: Seq<u8>) -> Seq<char> {
    let t = trim_zero_digits(hex_of(b));
    if t.len() == 0 {
        seq!['0', 'x', '0']
    } else {
        hex_prefix() + t
    }
}

/// Decoding with the odd-length padding: `Some` exactly when the text has
/// the prefix and only hex digits after it.
pub open spec fn padded_hex_value(s: Seq<char>) -> Option<Seq<u8>> {
    if has_hex_prefix(s) && all_hex(digits_of(s)) {
        Some(bytes_of_hex(pad_even(digits_of(s))))
    } else {
        None
    }
}

// ---------------------------------------------------------------------
// Outside transcoding
// ---------------------------------------------------------------------

/// Relies on `hex::encode`: two lower-case digits for each byte, high nibble
/// first, in the order of the bytes.
#[verifier::external_body]
fn hex_encode(b: &[u8]) -> (r: String)
    ensures
        r@ == hex_of(b@),
{
    ::hex::encode(b)
}

/// Relies on `hex::decode`: it succeeds exactly on an even number of digits
/// from `0-9a-fA-F`, each pair giving one byte, high nibble first; an odd
/// byte length fails with `OddLength`, any other failure names a position
/// that holds no digit.
#[verifier::external_body]
fn hex_decode(s: &str) -> (r: Result<Vec<u8>, HexError>)
    ensures
        match r {
            Ok(v) => s@.len() % 2 == 0 && all_hex(s@) && v@ == bytes_of_hex(s@),
            Err(e) => {
                &&& !(s@.len() % 2 == 0 && all_hex(s@))
                &&& (e is OddLength <==> s.spec_bytes().len() % 2 == 1)
                &&& !(e is InvalidStringLength)
            },
        },
{
    match ::hex::decode(s) {
        Ok(v) => Ok(v),
        Err(::hex::FromHexError::InvalidHexCharacter { c, index }) => Err(
            HexError::InvalidHexCharacter { c, index },
        ),
        Err(::hex::FromHexError::OddLength) => Err(HexError::OddLength),
        Err(::hex::FromHexError::InvalidStringLength) => Err(HexError::InvalidStringLength),
    }
}

// ---------------------------------------------------------------------
// Lemmas
// ---------------------------------------------------------------------

pub proof fn lemma_hex_digit(n: u8)
    requires
        n < 16,
    ensures
        is_lower_hex_char(hex_digit(n)),
        hex_char_value(hex_digit(n)) == n,
        hex_digit(n) == '0' <==> n == 0,
{
}

pub proof fn lemma_hex_of_lower(b: Seq<u8>)
    ensures
        all_lower_hex(hex_of(b)),
        all_hex(hex_of(b)),
        hex_of(b).len() == 2 * b.len(),
{
    assert forall|i: int| 0 <= i < hex_of(b).len() implies #[trigger] is_lower_hex_char(
        hex_of(b)[i],
    ) by {
        lemma_hex_digit(b[i / 2] / 16);
        lemma_hex_digit(b[i / 2] % 16);
    }
}

pub proof fn lemma_hex_of_append(a: Seq<u8>, b: Seq<u8>)
    ensures
        hex_of(a + b) == hex_of(a) + hex_of(b),
{
    assert forall|i: int| 0 <= i < hex_of(a + b).len() implies #[trigger] hex_of(a + b)[i] == (
    hex_of(a) + hex_of(b))[i] by {
        if i >= 2 * a.len() {
            assert((i - 2 * a.len()) / 2 == i / 2 - a.len());
            assert((i - 2 * a.len()) % 2 == i % 2);
        }
    }
    assert(hex_of(a + b) =~= hex_of(a) + hex_of(b));
}

/// Decoding what the encoder wrote gives the bytes back.
pub proof fn lemma_bytes_of_hex_of(b: Seq<u8>)
    ensures
        bytes_of_hex(hex_of(b)) == b,
{
    assert forall|i: int| 0 <= i < b.len() implies #[trigger] bytes_of_hex(hex_of(b))[i] == b[i] by {
        lemma_hex_digit(b[i] / 16);
        lemma_hex_digit(b[i] % 16);
        assert((2 * i) / 2 == i);
        assert((2 * i + 1) / 2 == i);
        assert((2 * i) % 2 == 0);
        assert((2 * i + 1) % 2 == 1);
    }
    assert(bytes_of_hex(hex_of(b)) =~= b);
}

/// Encoding decoded lower-case digits gives the digits back.
pub proof fn lemma_hex_of_bytes_of(s: Seq<char>)
    requires
        s.len() % 2 == 0,
        all_lower_hex(s),
    ensures
        hex_of(bytes_of_hex(s)) == s,
{
    let b = bytes_of_hex(s);
    assert forall|i: int| 0 <= i < s.len() implies #[trigger] hex_of(b)[i] == s[i] by {
        let k = i / 2;
        assert(is_lower_hex_char(s[2 * k]));
        assert(is_lower_hex_char(s[2 * k + 1]));
        let hi = hex_char_value(s[2 * k]);
        let lo = hex_char_value(s[2 * k + 1]);
        assert(0 <= hi < 16 && 0 <= lo < 16);
        assert(b[k] == hi * 16 + lo);
        assert((hi * 16 + lo) / 16 == hi && (hi * 16 + lo) % 16 == lo) by (nonlinear_arith)
            requires
                0 <= hi < 16,
                0 <= lo < 16,
        ;
        if i % 2 == 0 {
            assert(i == 2 * k);
        } else {
            assert(i == 2 * k + 1);
        }
    }
    assert(hex_of(b) =~= s);
}

pub proof fn lemma_trim_nonzero(d: Seq<char>)
    requires
        d.len() == 0 || d[0] != '0',
    ensures
        trim_zero_digits(d) == d,
{
}

/// Leading `0` digits in front of a run do not change its trimmed form.
pub proof fn lemma_trim_zero_prefix(z: Seq<char>, d: Seq<char>)
    requires
        forall|i: int| 0 <= i < z.len() ==> z[i] == '0',
    ensures
        trim_zero_digits(z + d) == trim_zero_digits(d),
    decreases z.len(),
{
    if z.len() > 0 {
        assert((z + d).drop_first() =~= z.drop_first() + d);
        lemma_trim_zero_prefix(z.drop_first(), d);
    } else {
        assert(z + d =~= d);
    }
}

/// Zero bytes give only `0` digits.
pub proof fn lemma_hex_of_zeros(z: Seq<u8>)
    requires
        forall|i: int| 0 <= i < z.len() ==> z[i] == 0,
    ensures
        forall|i: int| 0 <= i < hex_of(z).len() ==> hex_of(z)[i] == '0',
{
    assert forall|i: int| 0 <= i < hex_of(z).len() implies hex_of(z)[i] == '0' by {
        lemma_hex_digit(z[i / 2] / 16);
        lemma_hex_digit(z[i / 2] % 16);
    }
}

/// The trimmed digits of bytes whose first byte is not zero: the whole
/// digit run, less its first digit where that one is `0`.
pub proof fn lemma_trim_hex_of_nonzero(b: Seq<u8>)
    requires
        b.len() > 0,
        b[0] != 0,
    ensures
        hex_of(b)[0] == '0' ==> trim_zero_digits(hex_of(b)) == hex_of(b).drop_first(),
        hex_of(b)[0] != '0' ==> trim_zero_digits(hex_of(b)) == hex_of(b),
        trim_zero_digits(hex_of(b)).len() > 0,
        trim_zero_digits(hex_of(b))[0] != '0',
{
    lemma_hex_digit(b[0] / 16);
    lemma_hex_digit(b[0] % 16);
    assert(hex_of(b)[0] == hex_digit(b[0] / 16));
    assert(hex_of(b)[1] == hex_digit(b[0] % 16));
    if hex_of(b)[0] == '0' {
        assert(b[0] / 16 == 0);
        assert(b[0] % 16 != 0);
        assert(hex_of(b).drop_first()[0] != '0');
        lemma_trim_nonzero(hex_of(b).drop_first());
    }
}

// ---------------------------------------------------------------------
// Operations
// ---------------------------------------------------------------------

/// The text after a leading `0x`, or `InvalidHexPrefix` with the whole text.
pub fn strip_hex_prefix(value: &str) -> (r: Result<&str, Error>)
    ensures
        match r {
            Ok(d) => has_hex_prefix(value@) && d@ == digits_of(value@),
            Err(Error::InvalidHexPrefix(s)) => !has_hex_prefix(value@) && s@ == value@,
            Err(_) => false,
        },
{
    let n = value.unicode_len();
    if n >= 2 && value.get_char(0) == '0' && value.get_char(1) == 'x' {
        Ok(value.substring_char(2, n))
    } else {
        Err(Error::InvalidHexPrefix(value.to_owned()))
    }
}

/// Hex digits to bytes, an even digit count required.
pub fn decode_hex_digits(digits: &str) -> (r: Result<Vec<u8>, Error>)
    ensures
        match r {
            Ok(v) => digits@.len() % 2 == 0 && all_hex(digits@) && v@ == bytes_of_hex(digits@),
            Err(Error::DecodeHex(_)) => !(digits@.len() % 2 == 0 && all_hex(digits@)),
            Err(_) => false,
        },
{
    match hex_decode(digits) {
        Ok(v) => Ok(v),
        Err(e) => Err(Error::DecodeHex(e)),
    }
}

/// Hex digits to bytes, with one implicit leading `0` nibble where the digit
/// count is odd.
pub fn decode_hex_digits_padded(digits: &str) -> (r: Result<Vec<u8>, Error>)
    ensures
        match r {
            Ok(v) => all_hex(digits@) && v@ == bytes_of_hex(pad_even(digits@)),
            Err(Error::DecodeHex(_)) => !all_hex(digits@),
            Err(_) => false,
        },
{
    let n = digits.unicode_len();
    if n % 2 == 1 {
        let mut padded = String::from_str("0");
        padded.append(digits);
        proof {
            reveal_strlit("0");
            assert(padded@ =~= pad_even(digits@));
            assert(all_hex(padded@) ==> all_hex(digits@)) by {
                if all_hex(padded@) {
                    assert forall|i: int| 0 <= i < digits@.len() implies #[trigger] is_hex_char(
                        digits@[i],
                    ) by {
                        assert(padded@[i + 1] == digits@[i]);
                    }
                }
            }
        }
        decode_hex_digits(padded.as_str())
    } else {
        decode_hex_digits(digits)
    }
}

/// Decodes `0x`-prefixed hex text to bytes. An odd digit count stands for
/// one implicit leading `0` nibble.
pub fn decode_hex(value: &str) -> (r: Result<Vec<u8>, Error>)
    ensures
        match r {
            Ok(v) => padded_hex_value(value@) == Some(v@),
            Err(Error::InvalidHexPrefix(s)) => !has_hex_prefix(value@) && s@ == value@,
            Err(Error::DecodeHex(_)) => has_hex_prefix(value@) && padded_hex_value(value@) is None,
            Err(_) => false,
        },
{
    let digits = strip_hex_prefix(value)?;
    decode_hex_digits_padded(digits)
}

/// Identity policy: `0x` and two lower-case digits for every byte, zero
/// bytes included; an empty buffer gives `0x`.
pub fn encode_hex_data(buf: &[u8]) -> (r: String)
    ensures
        r@ == data_hex(buf@),
{
    let h = hex_encode(buf);
    let mut out = String::from_str("0x");
    out.append(h.as_str());
    proof {
        reveal_strlit("0x");
        assert(out@ =~= data_hex(buf@));
    }
    out
}

/// The encoding of a fixed-size value: the identity policy.
pub fn encode_hex_fixed_size_data(buf: &[u8]) -> (r: String)
    ensures
        r@ == data_hex(buf@),
{
    encode_hex_data(buf)
}

/// Minimal policy: `0x` and the digits of the buffer without leading `0`
/// digits; `0x0` where no digit is left.
pub fn encode_hex_quantity(buf: &[u8]) -> (r: String)
    ensures
        r@ == quantity_hex(buf@),
{
    let len = buf.len();
    let mut k: usize = 0;
    while k < len && buf[k] == 0
        invariant
            len == buf@.len(),
            k <= len,
            forall|j: int| 0 <= j < k ==> buf@[j] == 0,
        decreases len - k,
    {
        k = k + 1;
    }
    let ghost zeros = buf@.subrange(0, k as int);
    proof {
        lemma_hex_of_zeros(zeros);
    }
    if k == len {
        proof {
            assert(zeros =~= buf@);
            assert(hex_of(buf@) =~= hex_of(buf@) + Seq::<char>::empty());
            lemma_trim_zero_prefix(hex_of(buf@), Seq::empty());
        }
        let out = String::from_str("0x0");
        proof {
            reveal_strlit("0x0");
        }
        return out;
    }
    let mut rest: Vec<u8> = Vec::new();
    let mut i: usize = k;
    while i < len
        invariant
            len == buf@.len(),
            k <= i <= len,
            rest@ == buf@.subrange(k as int, i as int),
        decreases len - i,
    {
        rest.push(buf[i]);
        i = i + 1;
        proof {
            assert(rest@ =~= buf@.subrange(k as int, i as int));
        }
    }
    let h = hex_encode(rest.as_slice());
    let hs = h.as_str();
    let n = hs.unicode_len();
    proof {
        assert(buf@ =~= zeros + rest@);
        lemma_hex_of_append(zeros, rest@);
        lemma_trim_zero_prefix(hex_of(zeros), hex_of(rest@));
        lemma_trim_hex_of_nonzero(rest@);
    }
    let digits = if hs.get_char(0) == '0' {
        hs.substring_char(1, n)
    } else {
        hs
    };
    proof {
        assert(digits@ =~= trim_zero_digits(hex_of(buf@)));
    }
    let mut out = String::from_str("0x");
    out.append(digits);
    proof {
        reveal_strlit("0x");
        assert(out@ =~= quantity_hex(buf@));
    }
    out
}

} // verus!
