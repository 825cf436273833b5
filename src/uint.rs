//! Scalar indices: 64-bit unsigned integers written with the same minimal
//! text as quantities.
use crate::error::Error;
use crate::hex::{all_hex, digits_of, has_hex_prefix, quantity_hex};
use crate::quantity::{
    is_canonical_quantity, is_canonical_quantity_text, lemma_quantity_hex_zero_prefix,
    lemma_quantity_round_trip, lemma_quantity_text_round_trip, lemma_quantity_value_canonical,
    lemma_quantity_zero_text, quantity_value_of_text, zero_text, Quantity,
};
use vstd::arithmetic::div_mod::{lemma_div_denominator, lemma_fundamental_div_mod};
use vstd::prelude::*;

verus! {

pub open spec fn pow256(n: nat) -> nat
    decreases n,
{
    if n == 0 {
        1
    } else {
        256 * pow256((n - 1) as nat)
    }
}

/// The unsigned integer that big-endian bytes stand for.
pub open spec fn be_value(b: Seq<u8>) -> nat
    decreases b.len(),
{
    if b.len() == 0 {
        0
    } else {
        be_value(b.drop_last()) * 256 + b.last() as nat
    }
}

/// The eight big-endian bytes of a 64-bit integer.
pub open spec fn u64_be_bytes(v: u64) -> Seq<u8> {
    Seq::new(8, |i: int| ((v as nat / pow256((7 - i) as nat)) % 256) as u8)
}

/// The text of a scalar: the quantity text of its eight big-endian bytes.
pub open spec fn uint_hex(v: u64) -> Seq<char> {
    quantity_hex(u64_be_bytes(v))
}

/// The scalar a text stands for: a quantity of at most eight bytes.
pub open spec fn uint_value_of_text(s: Seq<char>) -> Option<u64> {
    match quantity_value_of_text(s) {
        Some(b) => if b.len() <= 8 {
            Some(be_value(b) as u64)
        } else {
            None
        },
        None => None,
    }
}

/// A 64-bit unsigned scalar: a block number, a transaction or log index.
#[derive(Debug, Default, Clone, Copy, PartialEq, Eq, Hash)]
pub struct UInt(u64);

/// A position or a number that fits in 64 bits.
pub type Index = UInt;

pub type BlockNumber = UInt;

pub type TransactionIndex = UInt;

pub type LogIndex = UInt;

impl View for UInt {
    type V = u64;

    closed spec fn view(&self) -> u64 {
        self.0
    }
}

pub proof fn lemma_pow256_positive(n: nat)
    ensures
        pow256(n) >= 1,
    decreases n,
{
    if n > 0 {
        lemma_pow256_positive((n - 1) as nat);
    }
}

/// Big-endian bytes stand for less than 256 to the power of their count.
pub proof fn lemma_be_value_bound(b: Seq<u8>)
    ensures
        be_value(b) < pow256(b.len()),
    decreases b.len(),
{
    if b.len() > 0 {
        let d = b.drop_last();
        lemma_be_value_bound(d);
        let x = be_value(d);
        let p = pow256(d.len());
        let l = b.last();
        assert(x * 256 + l < 256 * p) by (nonlinear_arith)
            requires
                x < p,
                l < 256,
        ;
    }
}

proof fn lemma_prefix_step(b: Seq<u8>, i: int)
    requires
        0 <= i < b.len(),
    ensures
        be_value(b.subrange(0, i + 1)) == be_value(b.subrange(0, i)) * 256 + b[i],
{
    assert(b.subrange(0, i + 1).drop_last() =~= b.subrange(0, i));
}

/// The bytes of a 64-bit integer, most significant first.
fn u64_to_be_bytes(v: u64) -> (r: Vec<u8>)
    ensures
        r@ == u64_be_bytes(v),
{
    let mut out: Vec<u8> = Vec::new();
    let mut d: u64 = 72057594037927936;
    let mut i: usize = 0;
    proof {
        reveal_with_fuel(pow256, 8);
    }
    while i < 8
        invariant
            i <= 8,
            i < 8 ==> d == pow256((7 - i) as nat),
            out@ == u64_be_bytes(v).subrange(0, i as int),
        decreases 8 - i,
    {
        proof {
            lemma_pow256_positive((7 - i) as nat);
        }
        let byte = ((v / d) % 256) as u8;
        out.push(byte);
        proof {
            assert(out@ =~= u64_be_bytes(v).subrange(0, i + 1));
        }
        if i < 7 {
            proof {
                let p = pow256((6 - i) as nat);
                assert(pow256((7 - i) as nat) == 256 * p);
                assert((256 * p) / 256 == p) by (nonlinear_arith);
            }
            d = d / 256;
        }
        i = i + 1;
    }
    proof {
        assert(out@ =~= u64_be_bytes(v));
    }
    out
}

impl UInt {
    pub fn new(v: u64) -> (r: UInt)
        ensures
            r@ == v,
    {
        UInt(v)
    }

    pub fn value(&self) -> (r: u64)
        ensures
            r == self@,
    {
        self.0
    }

    /// The minimal text of the value: `0x` and its digits without leading
    /// zeros, `0x0` for zero.
    pub fn to_hex(&self) -> (r: String)
        ensures
            r@ == uint_hex(self@),
    {
        let bytes = u64_to_be_bytes(self.0);
        crate::quantity::encode_hex(bytes.as_slice())
    }

    /// Reads a scalar with the quantity rules; a value of more than eight
    /// bytes fails with `UnexpectedLength`.
    pub fn from_hex(value: &str) -> (r: Result<UInt, Error>)
        ensures
            match r {
                Ok(u) => uint_value_of_text(value@) == Some(u@),
                Err(Error::UnexpectedLength { expected, got }) => {
                    &&& quantity_value_of_text(value@) is Some
                    &&& expected == 8
                    &&& got == quantity_value_of_text(value@)->0.len()
                    &&& got > 8
                },
                Err(Error::InvalidHexPrefix(s)) => !has_hex_prefix(value@) && s@ == value@,
                Err(Error::UnexpectedLeadingZeroes(s)) => {
                    &&& has_hex_prefix(value@)
                    &&& value@ != zero_text()
                    &&& digits_of(value@).len() > 0
                    &&& digits_of(value@)[0] == '0'
                    &&& s@ == value@
                },
                Err(Error::DecodeHex(_)) => {
                    &&& has_hex_prefix(value@)
                    &&& (digits_of(value@).len() == 0 || (digits_of(value@)[0] != '0' && !all_hex(
                        digits_of(value@),
                    )))
                },
                Err(_) => false,
            },
    {
        let q = Quantity::from_hex(value)?;
        let b = q.as_bytes();
        let n = b.len();
        if n > 8 {
            return Err(Error::UnexpectedLength { expected: 8, got: n });
        }
        let mut acc: u64 = 0;
        let mut i: usize = 0;
        proof {
            reveal_with_fuel(pow256, 9);
            assert(b@.subrange(0, 0) =~= Seq::<u8>::empty());
        }
        while i < n
            invariant
                n == b@.len(),
                n <= 8,
                i <= n,
                acc == be_value(b@.subrange(0, i as int)),
                pow256(8) == 0x1_0000_0000_0000_0000,
            decreases n - i,
        {
            proof {
                lemma_prefix_step(b@, i as int);
                lemma_be_value_bound(b@.subrange(0, i + 1));
                lemma_pow256_monotone((i + 1) as nat, 8);
            }
            acc = acc * 256 + b[i] as u64;
            i = i + 1;
        }
        proof {
            assert(b@.subrange(0, n as int) =~= b@);
        }
        Ok(UInt(acc))
    }
}

pub proof fn lemma_pow256_monotone(a: nat, b: nat)
    requires
        a <= b,
    ensures
        pow256(a) <= pow256(b),
    decreases b,
{
    if a < b {
        lemma_pow256_monotone(a, (b - 1) as nat);
        lemma_pow256_positive((b - 1) as nat);
    }
}

impl From<u64> for UInt {
    fn from(v: u64) -> (r: UInt) {
        UInt(v)
    }
}

impl vstd::std_specs::convert::FromSpecImpl<u64> for UInt {
    open spec fn obeys_from_spec() -> bool {
        true
    }

    closed spec fn from_spec(v: u64) -> UInt {
        UInt(v)
    }
}

impl From<UInt> for u64 {
    fn from(v: UInt) -> (r: u64) {
        v.0
    }
}

impl vstd::std_specs::convert::FromSpecImpl<UInt> for u64 {
    open spec fn obeys_from_spec() -> bool {
        true
    }

    closed spec fn from_spec(v: UInt) -> u64 {
        v.0
    }
}

/// Zero bytes in front do not change the value of big-endian bytes.
pub proof fn lemma_be_value_zero_prefix(z: Seq<u8>, b: Seq<u8>)
    requires
        forall|i: int| 0 <= i < z.len() ==> z[i] == 0,
    ensures
        be_value(z + b) == be_value(b),
    decreases z.len() + b.len(),
{
    if b.len() == 0 {
        assert(z + b =~= z);
        if z.len() > 0 {
            assert(z.drop_last() + b =~= z.drop_last());
            lemma_be_value_zero_prefix(z.drop_last(), b);
        }
    } else {
        assert((z + b).drop_last() =~= z + b.drop_last());
        lemma_be_value_zero_prefix(z, b.drop_last());
    }
}

proof fn lemma_be_bytes_prefix(v: u64, k: nat)
    requires
        k <= 8,
    ensures
        be_value(u64_be_bytes(v).subrange(0, k as int)) == v as nat / pow256((8 - k) as nat),
    decreases k,
{
    let b = u64_be_bytes(v);
    if k == 0 {
        reveal_with_fuel(pow256, 9);
        assert(b.subrange(0, 0) =~= Seq::<u8>::empty());
        let big = pow256(8);
        assert(v as nat / big == 0) by (nonlinear_arith)
            requires
                v < big,
        ;
    } else {
        let j = (k - 1) as nat;
        lemma_be_bytes_prefix(v, j);
        lemma_prefix_step(b, j as int);
        let p = pow256((7 - j) as nat);
        lemma_pow256_positive((7 - j) as nat);
        let y = v as nat / p;
        assert(pow256((8 - j) as nat) == 256 * p);
        lemma_div_denominator(v as int, p as int, 256);
        assert(p * 256 == 256 * p);
        assert(v as nat / pow256((8 - j) as nat) == y / 256);
        lemma_fundamental_div_mod(y as int, 256);
        assert(b[j as int] == (y % 256) as u8);
        assert(b[j as int] as nat == y % 256);
        assert(be_value(b.subrange(0, k as int)) == (y / 256) * 256 + y % 256);
    }
}

/// The eight big-endian bytes of an integer stand for that integer.
pub proof fn lemma_be_bytes_value(v: u64)
    ensures
        be_value(u64_be_bytes(v)) == v,
{
    lemma_be_bytes_prefix(v, 8);
    assert(u64_be_bytes(v).subrange(0, 8) =~= u64_be_bytes(v));
    assert(pow256(0) == 1);
    assert(v as nat / 1 == v as nat);
}

/// The first byte weighs at least its value times 256 to the power of the
/// bytes after it.
proof fn lemma_be_value_lower(b: Seq<u8>)
    requires
        b.len() >= 1,
    ensures
        be_value(b) >= b[0] as nat * pow256((b.len() - 1) as nat),
    decreases b.len(),
{
    if b.len() == 1 {
        assert(b.drop_last() =~= Seq::<u8>::empty());
        assert(be_value(b.drop_last()) == 0);
        assert(be_value(b) == b[0] as nat);
        assert(pow256(0) == 1);
    } else {
        let d = b.drop_last();
        lemma_be_value_lower(d);
        let x = be_value(d);
        let m = b[0] as nat * pow256((d.len() - 1) as nat);
        assert(d[0] == b[0]);
        assert(x * 256 >= m * 256) by (nonlinear_arith)
            requires
                x >= m,
        ;
        assert(m * 256 == b[0] as nat * pow256((b.len() - 1) as nat)) by (nonlinear_arith)
            requires
                m == b[0] as nat * pow256((d.len() - 1) as nat),
                pow256((b.len() - 1) as nat) == 256 * pow256((d.len() - 1) as nat),
        ;
    }
}

/// Big-endian bytes of one length and one value are the same bytes.
proof fn lemma_be_value_injective_same_len(a: Seq<u8>, b: Seq<u8>)
    requires
        a.len() == b.len(),
        be_value(a) == be_value(b),
    ensures
        a == b,
    decreases a.len(),
{
    if a.len() > 0 {
        let xa = be_value(a.drop_last());
        let xb = be_value(b.drop_last());
        let la = a.last() as int;
        let lb = b.last() as int;
        assert(la == lb && xa == xb) by (nonlinear_arith)
            requires
                xa * 256 + la == xb * 256 + lb,
                0 <= la < 256,
                0 <= lb < 256,
                xa >= 0,
                xb >= 0,
        ;
        lemma_be_value_injective_same_len(a.drop_last(), b.drop_last());
        assert(a =~= a.drop_last().push(a.last()));
        assert(b =~= b.drop_last().push(b.last()));
    } else {
        assert(a =~= b);
    }
}

/// Two canonical byte strings of one value are the same.
pub proof fn lemma_canonical_unique(a: Seq<u8>, b: Seq<u8>)
    requires
        is_canonical_quantity(a),
        is_canonical_quantity(b),
        be_value(a) == be_value(b),
    ensures
        a == b,
{
    if a.len() != b.len() {
        let (s, l) = if a.len() < b.len() {
            (a, b)
        } else {
            (b, a)
        };
        lemma_be_value_bound(s);
        lemma_be_value_lower(l);
        lemma_pow256_monotone(s.len(), (l.len() - 1) as nat);
        assert(l[0] as nat * pow256((l.len() - 1) as nat) >= pow256((l.len() - 1) as nat))
            by (nonlinear_arith)
            requires
                l[0] as nat >= 1,
        ;
        assert(false);
    } else {
        lemma_be_value_injective_same_len(a, b);
    }
}

/// The canonical form of the bytes of a quantity text that `quantity_hex`
/// writes for any buffer: same value, no longer than the buffer or one byte.
proof fn lemma_quantity_hex_value(b: Seq<u8>)
    ensures
        quantity_value_of_text(quantity_hex(b)) is Some,
        is_canonical_quantity(quantity_value_of_text(quantity_hex(b))->0),
        be_value(quantity_value_of_text(quantity_hex(b))->0) == be_value(b),
        quantity_hex(quantity_value_of_text(quantity_hex(b))->0) == quantity_hex(b),
        quantity_value_of_text(quantity_hex(b))->0.len() <= b.len() || quantity_value_of_text(
            quantity_hex(b),
        )->0.len() == 1,
{
    if forall|i: int| 0 <= i < b.len() ==> b[i] == 0 {
        lemma_quantity_zero_text(b);
        lemma_be_value_zero_prefix(b, Seq::empty());
        assert(b + Seq::<u8>::empty() =~= b);
        let z = seq![0u8];
        lemma_be_value_zero_prefix(z, Seq::empty());
        assert(z + Seq::<u8>::empty() =~= z);
        assert(quantity_value_of_text(quantity_hex(b)) == Some(z));
        lemma_quantity_zero_text(z);
    } else {
        let k = choose|i: int| 0 <= i < b.len() && b[i] != 0;
        let k = first_nonzero(b, k);
        let z = b.subrange(0, k);
        let rest = b.subrange(k, b.len() as int);
        assert(b =~= z + rest);
        lemma_quantity_hex_zero_prefix(z, rest);
        lemma_be_value_zero_prefix(z, rest);
        lemma_quantity_round_trip(rest);
    }
}

spec fn first_nonzero_spec(b: Seq<u8>, k: int) -> bool {
    0 <= k < b.len() && b[k] != 0 && forall|j: int| 0 <= j < k ==> b[j] == 0
}

proof fn first_nonzero(b: Seq<u8>, k: int) -> (r: int)
    requires
        0 <= k < b.len(),
        b[k] != 0,
    ensures
        first_nonzero_spec(b, r),
    decreases k,
{
    if forall|j: int| 0 <= j < k ==> b[j] == 0 {
        k
    } else {
        let j = choose|j: int| 0 <= j < k && b[j] != 0;
        first_nonzero(b, j)
    }
}

/// Writing a scalar and reading the text gives the same scalar.
pub proof fn lemma_uint_round_trip(v: u64)
    ensures
        uint_value_of_text(uint_hex(v)) == Some(v),
{
    let b = u64_be_bytes(v);
    lemma_quantity_hex_value(b);
    lemma_be_bytes_value(v);
}

/// Reading canonical text of a value that fits in 64 bits and writing the
/// scalar gives the same text.
pub proof fn lemma_uint_text_round_trip(s: Seq<char>)
    requires
        is_canonical_quantity_text(s),
        uint_value_of_text(s) is Some,
    ensures
        uint_hex(uint_value_of_text(s)->0) == s,
{
    let c = quantity_value_of_text(s)->0;
    lemma_quantity_text_round_trip(s);
    lemma_quantity_value_canonical(s);
    lemma_be_value_bound(c);
    lemma_pow256_monotone(c.len(), 8);
    reveal_with_fuel(pow256, 9);
    let v = be_value(c) as u64;
    assert(v as nat == be_value(c));
    let b = u64_be_bytes(v);
    lemma_quantity_hex_value(b);
    lemma_be_bytes_value(v);
    let c2 = quantity_value_of_text(quantity_hex(b))->0;
    lemma_canonical_unique(c, c2);
}

} // verus!
