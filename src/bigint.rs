//! Arbitrary-precision integers as plain values, and the arithmetic on them
//! that `num` performs.
use vstd::prelude::*;
use num::bigint::Sign;
use num::{BigInt, BigUint};
use crate::module::copy_vec;

verus! {

pub open spec fn pow256(n: nat) -> nat
    decreases n,
{
    if n == 0 {
        1
    } else {
        256 * pow256((n - 1) as nat)
    }
}

/// Value of bytes in little-endian order.
pub open spec fn le_value(s: Seq<u8>) -> nat
    decreases s.len(),
{
    if s.len() == 0 {
        0
    } else {
        (s[0] + 256 * le_value(s.drop_first())) as nat
    }
}

/// Value of bytes in big-endian order, read as an unsigned number.
pub open spec fn be_unsigned(s: Seq<u8>) -> nat
    decreases s.len(),
{
    if s.len() == 0 {
        0
    } else {
        (s[0] * pow256((s.len() - 1) as nat) + be_unsigned(s.drop_first())) as nat
    }
}

/// Value of bytes in big-endian two's complement.
pub open spec fn be_signed(s: Seq<u8>) -> int {
    if s.len() > 0 && s[0] >= 128 {
        be_unsigned(s) - pow256(s.len())
    } else {
        be_unsigned(s) as int
    }
}

/// At least one byte, and no leading byte that could be dropped without changing the value.
pub open spec fn is_minimal_signed(s: Seq<u8>) -> bool {
    &&& s.len() >= 1
    &&& s.len() >= 2 ==> !(s[0] == 0 && s[1] < 128) && !(s[0] == 255 && s[1] >= 128)
}

/// `s` is the DER content of the INTEGER `n`: minimal big-endian two's complement.
pub open spec fn is_der_integer(s: Seq<u8>, n: int) -> bool {
    is_minimal_signed(s) && be_signed(s) == n
}

/// An integer of any size: a sign and the little-endian bytes of its magnitude.
#[derive(Debug, Clone)]
pub struct BigInteger {
    pub negative: bool,
    pub magnitude: Vec<u8>,
}

impl View for BigInteger {
    type V = int;

    open spec fn view(&self) -> int {
        if self.negative {
            -le_value(self.magnitude@)
        } else {
            le_value(self.magnitude@) as int
        }
    }
}

impl BigInteger {
    /// The integer with the given sign and little-endian magnitude bytes.
    pub fn new(negative: bool, magnitude: Vec<u8>) -> (r: BigInteger)
        ensures
            r.negative == negative,
            r.magnitude@ == magnitude@,
    {
        BigInteger { negative, magnitude }
    }

    /// The integer with the value of `v`.
    pub fn from_i64(v: i64) -> (r: BigInteger)
        ensures
            r@ == v as int,
    {
        big_from_i64(v)
    }

    pub fn zero() -> (r: BigInteger)
        ensures
            r@ == 0,
    {
        BigInteger { negative: false, magnitude: Vec::new() }
    }

    pub fn is_zero(&self) -> (r: bool)
        ensures
            r == (self@ == 0),
    {
        let mut i: usize = 0;
        while i < self.magnitude.len()
            invariant
                i <= self.magnitude@.len(),
                forall|j: int| 0 <= j < i ==> self.magnitude@[j] == 0,
            decreases self.magnitude@.len() - i,
        {
            if self.magnitude[i] != 0 {
                proof {
                    lemma_le_value_nonzero(self.magnitude@, i as int);
                }
                return false;
            }
            i = i + 1;
        }
        proof {
            lemma_le_value_zero(self.magnitude@);
        }
        true
    }

    /// Whether the integer is odd.
    pub fn is_odd(&self) -> (r: bool)
        ensures
            r == (self@ % 2 != 0),
    {
        proof {
            lemma_le_value_parity(self.magnitude@);
        }
        if self.magnitude.len() == 0 {
            false
        } else {
            self.magnitude[0] % 2 == 1
        }
    }

    pub fn copy(&self) -> (r: BigInteger)
        ensures
            r@ == self@,
            r.negative == self.negative,
            r.magnitude@ == self.magnitude@,
    {
        BigInteger { negative: self.negative, magnitude: copy_vec(&self.magnitude) }
    }

    /// The absolute value.
    pub fn abs(&self) -> (r: BigInteger)
        ensures
            r@ == if self@ < 0 {
                -self@
            } else {
                self@
            },
    {
        BigInteger { negative: false, magnitude: copy_vec(&self.magnitude) }
    }
}

proof fn lemma_le_value_zero(s: Seq<u8>)
    requires
        forall|j: int| 0 <= j < s.len() ==> s[j] == 0,
    ensures
        le_value(s) == 0,
    decreases s.len(),
{
    if s.len() > 0 {
        lemma_le_value_zero(s.drop_first());
    }
}

proof fn lemma_le_value_nonzero(s: Seq<u8>, i: int)
    requires
        0 <= i < s.len(),
        s[i] != 0,
    ensures
        le_value(s) > 0,
    decreases s.len(),
{
    if i > 0 {
        lemma_le_value_nonzero(s.drop_first(), i - 1);
    }
}

proof fn lemma_le_value_parity(s: Seq<u8>)
    ensures
        s.len() == 0 ==> le_value(s) == 0,
        s.len() > 0 ==> le_value(s) % 2 == s[0] % 2,
{
    if s.len() > 0 {
        let r = le_value(s.drop_first());
        assert((s[0] + 256 * r) % 2 == s[0] % 2) by (nonlinear_arith)
            requires
                r >= 0,
        ;
    }
}

pub proof fn lemma_be_unsigned_bound(s: Seq<u8>)
    ensures
        be_unsigned(s) < pow256(s.len()),
    decreases s.len(),
{
    if s.len() > 0 {
        let p = pow256((s.len() - 1) as nat);
        lemma_be_unsigned_bound(s.drop_first());
        let r = be_unsigned(s.drop_first());
        let d = s[0];
        assert(d * p + r < 256 * p) by (nonlinear_arith)
            requires
                d <= 255,
                r < p,
        ;
    }
}

/// Relies on `BigInt::to_signed_bytes_le`: the minimal two's-complement bytes of the
/// number, least significant first. Its source takes the minimal magnitude bytes, adds
/// one byte only where the top bit is needed for the sign, then complements.
#[verifier::external_body]
pub(crate) fn signed_bytes_le(n: &BigInteger) -> (r: Vec<u8>)
    ensures
        is_der_integer(r@.reverse(), n@),
{
    BigInt::from_bytes_le(if n.negative { Sign::Minus } else { Sign::Plus }, &n.magnitude).to_signed_bytes_le()
}

/// Relies on `BigInt::from_signed_bytes_be`: reads big-endian two's-complement bytes.
#[verifier::external_body]
pub(crate) fn from_signed_bytes_be(bytes: &[u8]) -> (r: BigInteger)
    ensures
        r@ == be_signed(bytes@),
{
    let (sign, magnitude) = BigInt::from_signed_bytes_be(bytes).to_bytes_le();
    BigInteger { negative: sign == Sign::Minus, magnitude }
}

/// Relies on `BigInt`'s `>>`, an arithmetic shift that rounds toward negative infinity.
#[verifier::external_body]
pub(crate) fn big_half(n: &BigInteger) -> (r: BigInteger)
    ensures
        r@ == n@ / 2,
{
    let (sign, magnitude) = (BigInt::from_bytes_le(if n.negative { Sign::Minus } else { Sign::Plus }, &n.magnitude) >> 1usize).to_bytes_le();
    BigInteger { negative: sign == Sign::Minus, magnitude }
}

/// Relies on `BigInt`'s `+`.
#[verifier::external_body]
pub(crate) fn big_add(a: &BigInteger, b: &BigInteger) -> (r: BigInteger)
    ensures
        r@ == a@ + b@,
{
    let (sign, magnitude) = (BigInt::from_bytes_le(if a.negative { Sign::Minus } else { Sign::Plus }, &a.magnitude) + BigInt::from_bytes_le(if b.negative { Sign::Minus } else { Sign::Plus }, &b.magnitude)).to_bytes_le();
    BigInteger { negative: sign == Sign::Minus, magnitude }
}

/// Relies on `BigInt`'s `*`.
#[verifier::external_body]
pub(crate) fn big_mul(a: &BigInteger, b: &BigInteger) -> (r: BigInteger)
    ensures
        r@ == a@ * b@,
{
    let (sign, magnitude) = (BigInt::from_bytes_le(if a.negative { Sign::Minus } else { Sign::Plus }, &a.magnitude) * BigInt::from_bytes_le(if b.negative { Sign::Minus } else { Sign::Plus }, &b.magnitude)).to_bytes_le();
    BigInteger { negative: sign == Sign::Minus, magnitude }
}

/// Relies on `From<i64> for BigInt`.
#[verifier::external_body]
pub(crate) fn big_from_i64(v: i64) -> (r: BigInteger)
    ensures
        r@ == v as int,
{
    let (sign, magnitude) = BigInt::from(v).to_bytes_le();
    BigInteger { negative: sign == Sign::Minus, magnitude }
}

/// The value of a digit character in the given radix, if it is one.
pub open spec fn digit_value(c: u8, radix: nat) -> Option<nat> {
    let v: int = if 48 <= c <= 57 {
        c - 48
    } else if 97 <= c <= 122 {
        c - 97 + 10
    } else if 65 <= c <= 90 {
        c - 65 + 10
    } else {
        99
    };
    if v < radix {
        Some(v as nat)
    } else {
        None
    }
}

pub open spec fn all_radix_digits(s: Seq<u8>, radix: nat) -> bool {
    forall|i: int| 0 <= i < s.len() ==> (#[trigger] digit_value(s[i], radix)) is Some
}

/// The number that a string of digits denotes in the given radix.
pub open spec fn radix_value(s: Seq<u8>, radix: nat) -> nat
    decreases s.len(),
{
    if s.len() == 0 {
        0
    } else {
        (radix_value(s.drop_last(), radix) * radix + match digit_value(s.last(), radix) {
            Some(d) => d,
            None => 0,
        }) as nat
    }
}

/// Relies on `BigUint::parse_bytes`: a non-empty string of digits of the radix gives its
/// value. It refuses other strings, except that it lets `_` separate digits and takes a
/// leading `+`.
#[verifier::external_body]
pub(crate) fn big_parse_unsigned(digits: &[u8], radix: u32) -> (r: Option<BigInteger>)
    requires
        2 <= radix <= 36,
    ensures
        digits@.len() > 0 && all_radix_digits(digits@, radix as nat) ==> r is Some,
        r matches Some(v) ==> (all_radix_digits(digits@, radix as nat) ==> v@ == radix_value(
            digits@,
            radix as nat,
        )),
        r matches Some(v) ==> v@ >= 0,
{
    match BigUint::parse_bytes(digits, radix) {
        Some(v) => Some(BigInteger { negative: false, magnitude: v.to_bytes_le() }),
        None => None,
    }
}

/// Relies on `BigInt::pow`.
#[verifier::external_body]
pub(crate) fn big_pow(base: &BigInteger, exponent: u32) -> (r: BigInteger)
    ensures
        r@ == vstd::arithmetic::power::pow(base@, exponent as nat),
{
    let (sign, magnitude) = BigInt::from_bytes_le(if base.negative { Sign::Minus } else { Sign::Plus }, &base.magnitude).pow(exponent).to_bytes_le();
    BigInteger { negative: sign == Sign::Minus, magnitude }
}

} // verus!
