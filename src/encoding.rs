//! DER content encoding of INTEGER, REAL and restricted character string values.
//!
//! Each encoder appends the content bytes in reverse order, last byte first, so that
//! lengths can be computed from the inside out; the caller reverses the whole buffer
//! once at the end.
use vstd::prelude::*;
use vstd::utf8::encode_utf8;
use widestring::{Utf16String, Utf32String};
use crate::bigint::{
    be_signed, be_unsigned, big_add, big_from_i64, big_half, from_signed_bytes_be, is_der_integer,
    is_minimal_signed, lemma_be_unsigned_bound, le_value, pow256, signed_bytes_le, BigInteger,
};
use crate::error::{io_error, Error, Loc};
use crate::types::TagType;

verus! {

/// What was appended to `old` to give `new`.
pub open spec fn appended(old: Seq<u8>, new: Seq<u8>) -> Seq<u8> {
    new.subrange(old.len() as int, new.len() as int)
}

/// `new` extends `old`, and what was appended, read back to front, is `content`.
pub open spec fn appends_reversed(old: Seq<u8>, new: Seq<u8>, content: Seq<u8>) -> bool {
    &&& new.len() >= old.len()
    &&& new.subrange(0, old.len() as int) == old
    &&& appended(old, new).reverse() == content
}

proof fn lemma_reverse_push(a: Seq<u8>, x: u8)
    ensures
        a.push(x).reverse() == seq![x] + a.reverse(),
{
    assert(a.push(x).reverse() =~= seq![x] + a.reverse());
}

proof fn lemma_reverse_concat(a: Seq<u8>, b: Seq<u8>)
    ensures
        (a + b).reverse() == b.reverse() + a.reverse(),
{
    assert((a + b).reverse() =~= b.reverse() + a.reverse());
}

/// Appends the DER content of an INTEGER: minimal two's complement, written back to
/// front.
pub fn der_encode_integer(buf: &mut Vec<u8>, num: &BigInteger)
    ensures
        final(buf)@.len() > old(buf)@.len(),
        final(buf)@.subrange(0, old(buf)@.len() as int) == old(buf)@,
        is_der_integer(appended(old(buf)@, final(buf)@).reverse(), num@),
{
    let ghost start = buf@;
    if num.is_zero() {
        buf.push(0x00);
        assert(appended(start, buf@) =~= seq![0u8]);
        assert(seq![0u8].reverse() =~= seq![0u8]);
        assert(be_unsigned(seq![0u8]) == 0) by {
            assert(seq![0u8].drop_first() =~= Seq::<u8>::empty());
            assert(be_unsigned(Seq::<u8>::empty()) == 0);
            assert(seq![0u8][0] == 0u8);
            assert(be_unsigned(seq![0u8]) == 0u8 * pow256(0) + be_unsigned(seq![0u8].drop_first()));
        }
        return;
    }
    let bytes = signed_bytes_le(num);
    let mut i: usize = 0;
    while i < bytes.len()
        invariant
            i <= bytes@.len(),
            buf@ == start + bytes@.subrange(0, i as int),
        decreases bytes@.len() - i,
    {
        buf.push(bytes[i]);
        i = i + 1;
    }
    assert(appended(start, buf@) =~= bytes@);
    assert(buf@.subrange(0, start.len() as int) =~= start);
    let msb = bytes[bytes.len() - 1];
    proof {
        let s = bytes@.reverse();
        assert(s[0] == msb);
        lemma_be_unsigned_bound(s);
        if !num.negative {
            assert(num@ >= 0);
        } else {
            assert(num@ < 0);
        }
    }
    if !num.negative && msb >= 0x80 {
        // the sign bit is set but the number is positive: a zero byte keeps it positive
        buf.push(0x00);
    } else if num.negative && msb < 0x80 {
        // the sign bit is clear but the number is negative: an all-ones byte keeps it negative
        buf.push(0xff);
    }
}

/// Reads the DER content of an INTEGER: big-endian two's complement.
pub fn der_decode_integer(value: &[u8]) -> (r: Result<BigInteger, Error>)
    ensures
        r is Ok <==> value@.len() > 0,
        r matches Ok(n) ==> n@ == be_signed(value@),
        r matches Err(e) ==> e.is_io(),
{
    if value.len() == 0 {
        return Err(io_error("INTEGER must have a value", Loc::at(0)));
    }
    Ok(from_signed_bytes_be(value))
}


pub open spec fn abs(x: int) -> nat {
    if x < 0 {
        (-x) as nat
    } else {
        x as nat
    }
}

/// A base-2 REAL `m * 2^e` with the trailing zero bits of the mantissa moved into the
/// exponent.
pub open spec fn normal_form(m: int, e: int) -> (int, int)
    decreases abs(m),
{
    if m != 0 && m % 2 == 0 {
        normal_form(m / 2, e + 1)
    } else {
        (m, e)
    }
}

/// The first byte of a binary REAL encoding: binary form, the sign, and how the
/// exponent's length is given (1, 2 or 3 bytes, or an explicit length byte).
pub open spec fn real_flags(negative: bool, exp_len: nat) -> u8 {
    (128 + (if negative {
        64int
    } else {
        0int
    }) + (if exp_len <= 3 {
        exp_len - 1
    } else {
        3int
    })) as u8
}

/// `r` is the DER content of the base-2 REAL `m * 2^e`, `m` not zero: the flags byte,
/// an explicit exponent length when the exponent takes more than three bytes, the
/// exponent, then the magnitude of the normalized mantissa.
pub open spec fn is_der_real_base2(r: Seq<u8>, m: int, e: int) -> bool {
    exists|eb: Seq<u8>, nb: Seq<u8>| #[trigger] real_layout(r, eb, nb, normal_form(m, e).0, normal_form(m, e).1)
}

/// `r` is laid out from the exponent block `eb` and the mantissa block `nb` of the
/// normalized REAL `m2 * 2^e2`.
pub open spec fn real_layout(r: Seq<u8>, eb: Seq<u8>, nb: Seq<u8>, m2: int, e2: int) -> bool {
    &&& is_der_integer(eb, e2)
    &&& is_der_integer(nb, abs(m2) as int)
    &&& 1 <= eb.len() <= 255
    &&& r == seq![real_flags(m2 < 0, eb.len())] + (if eb.len() > 3 {
        seq![eb.len() as u8]
    } else {
        Seq::<u8>::empty()
    }) + eb + nb
}

/// The exponent of the normalized REAL lies where its encoding fits the one-byte length.
pub open spec fn real_exponent_fits(m: int, e: int) -> bool {
    let e2 = normal_form(m, e).1;
    -128 * pow256(254) <= e2 < 128 * pow256(254)
}

proof fn lemma_pow256_mono(a: nat, b: nat)
    requires
        a <= b,
    ensures
        pow256(a) <= pow256(b),
    decreases b,
{
    if a < b {
        lemma_pow256_mono(a, (b - 1) as nat);
    }
}

proof fn lemma_pow256_pos(a: nat)
    ensures
        pow256(a) >= 1,
    decreases a,
{
    if a > 0 {
        lemma_pow256_pos((a - 1) as nat);
    }
}

/// A minimal encoding of a number below `128 * 256^254` in magnitude takes at most
/// 255 bytes.
proof fn lemma_der_integer_len(s: Seq<u8>, n: int)
    requires
        is_der_integer(s, n),
        -128 * pow256(254) <= n < 128 * pow256(254),
    ensures
        s.len() <= 255,
{
    if s.len() > 255 {
        let l = s.len();
        let t = s.drop_first();
        let q = pow256((l - 2) as nat);
        let p = pow256((l - 1) as nat);
        assert(p == 256 * q);
        lemma_be_unsigned_bound(t.drop_first());
        assert(t.drop_first().len() == l - 2);
        let rest = be_unsigned(t.drop_first());
        assert(be_unsigned(t) == t[0] * q + rest);
        assert(be_unsigned(s) == s[0] * p + be_unsigned(t));
        assert(t[0] == s[1]);
        lemma_pow256_mono(254, (l - 2) as nat);
        let k = pow256(254);
        assert(pow256(l) == 256 * p);
        let a = s[0] as int;
        let b = s[1] as int;
        if s[0] < 128 {
            assert(be_signed(s) == be_unsigned(s));
            if s[0] == 0 {
                assert(b >= 128);
                assert(b * q >= 128 * q) by (nonlinear_arith)
                    requires
                        b >= 128,
                        q >= 0,
                ;
            } else {
                assert(a * p >= p) by (nonlinear_arith)
                    requires
                        a >= 1,
                        p >= 0,
                ;
                assert(b * q >= 0) by (nonlinear_arith)
                    requires
                        b >= 0,
                        q >= 0,
                ;
            }
            assert(128 * q >= 128 * k) by (nonlinear_arith)
                requires
                    q >= k,
            ;
        } else {
            assert(be_signed(s) == be_unsigned(s) - 256 * p);
            if s[0] == 255 {
                assert(b < 128);
                assert(b * q <= 127 * q) by (nonlinear_arith)
                    requires
                        b <= 127,
                        q >= 0,
                ;
            } else {
                assert(a * p <= 254 * p) by (nonlinear_arith)
                    requires
                        a <= 254,
                        p >= 0,
                ;
                assert(b * q < p) by (nonlinear_arith)
                    requires
                        b <= 255,
                        p == 256 * q,
                        q >= 1,
                ;
                lemma_pow256_pos((l - 2) as nat);
            }
            lemma_pow256_pos((l - 2) as nat);
            assert(128 * q >= 128 * k) by (nonlinear_arith)
                requires
                    q >= k,
            ;
        }
    }
}

/// Appends the DER content of a base-2 REAL `mantissa * 2^exponent`, back to front.
/// Zero has empty content.
pub fn der_encode_real(buf: &mut Vec<u8>, mantissa: BigInteger, base: i64, exponent: BigInteger)
    requires
        base == 2,
        mantissa@ != 0 ==> real_exponent_fits(mantissa@, exponent@),
    ensures
        final(buf)@.len() >= old(buf)@.len(),
        final(buf)@.subrange(0, old(buf)@.len() as int) == old(buf)@,
        mantissa@ == 0 ==> final(buf)@ == old(buf)@,
        mantissa@ != 0 ==> is_der_real_base2(appended(old(buf)@, final(buf)@).reverse(), mantissa@, exponent@),
{
    let ghost start = buf@;
    if mantissa.is_zero() {
        assert(buf@.subrange(0, start.len() as int) =~= start);
        return;
    }
    let mut m = mantissa;
    let mut e = exponent;
    let one = big_from_i64(1);
    while !m.is_odd()
        invariant
            m@ != 0,
            normal_form(m@, e@) == normal_form(mantissa@, exponent@),
            one@ == 1,
        decreases abs(m@),
    {
        m = big_half(&m);
        e = big_add(&e, &one);
    }
    let ghost m2 = m@;
    let ghost e2 = e@;
    assert(normal_form(m2, e2) == (m2, e2));
    let magnitude = m.abs();
    der_encode_integer(buf, &magnitude);
    let ghost after_n = buf@;
    let exp_start = buf.len();
    der_encode_integer(buf, &e);
    let ghost after_e = buf@;
    let exp_len = buf.len() - exp_start;
    let ghost nb = appended(start, after_n).reverse();
    let ghost eb = appended(after_n, after_e).reverse();
    proof {
        lemma_der_integer_len(eb, e2);
        assert(eb.len() == exp_len);
    }
    let negative = m.negative;
    assert(negative == (m2 < 0));
    let mut bitflags: u8 = 0x80;
    if negative {
        bitflags = bitflags + 0x40;
    }
    let explicit = exp_len > 3;
    if exp_len <= 3 {
        bitflags = bitflags + (exp_len - 1) as u8;
    } else {
        buf.push(exp_len as u8);
        bitflags = bitflags + 3;
    }
    let ghost after_len = buf@;
    buf.push(bitflags);
    proof {
        let tail = if explicit {
            seq![exp_len as u8]
        } else {
            Seq::<u8>::empty()
        };
        assert(after_len =~= after_e + tail);
        lemma_real_layout(start, after_n, after_e, tail, bitflags, buf@);
        assert(bitflags == real_flags(m2 < 0, eb.len()));
        assert(abs(m2) as int == magnitude@);
        assert(appended(start, buf@).reverse() == seq![real_flags(m2 < 0, eb.len())] + tail + eb + nb);
        assert(is_der_integer(eb, e2) && is_der_integer(nb, abs(m2) as int));
        assert(normal_form(mantissa@, exponent@) == (m2, e2));
        assert(1 <= eb.len() <= 255);
        assert(tail == (if eb.len() > 3 {
            seq![eb.len() as u8]
        } else {
            Seq::<u8>::empty()
        }));
        assert(normal_form(mantissa@, exponent@).0 == m2);
        assert(normal_form(mantissa@, exponent@).1 == e2);
        assert(real_layout(appended(start, buf@).reverse(), eb, nb, normal_form(mantissa@, exponent@).0, normal_form(mantissa@, exponent@).1));
        assert(is_der_real_base2(appended(start, buf@).reverse(), mantissa@, exponent@));
    }
}

/// The pieces appended one after the other, read back to front.
proof fn lemma_real_layout(start: Seq<u8>, after_n: Seq<u8>, after_e: Seq<u8>, tail: Seq<u8>, flags: u8, fin: Seq<u8>)
    requires
        after_n.len() >= start.len(),
        after_n.subrange(0, start.len() as int) == start,
        after_e.len() >= after_n.len(),
        after_e.subrange(0, after_n.len() as int) == after_n,
        tail.len() <= 1,
        fin == (after_e + tail).push(flags),
    ensures
        fin.subrange(0, start.len() as int) == start,
        appended(start, fin).reverse() == seq![flags] + tail + appended(after_n, after_e).reverse() + appended(start, after_n).reverse(),
{
    let n = appended(start, after_n);
    let e = appended(after_n, after_e);
    assert(appended(start, fin) =~= n + e + tail + seq![flags]);
    lemma_reverse_concat(n + e + tail, seq![flags]);
    lemma_reverse_concat(n + e, tail);
    lemma_reverse_concat(n, e);
    assert(seq![flags].reverse() =~= seq![flags]);
    assert(tail.reverse() =~= tail);
    assert(fin.subrange(0, start.len() as int) =~= start) by {
        assert forall|i: int| 0 <= i < start.len() implies fin[i] == start[i] by {
            assert(fin[i] == after_e[i]);
            assert(after_e[i] == after_n[i]);
            assert(after_n[i] == start[i]);
        }
    }
}

/// The normalized mantissa of a non-zero REAL is odd and has the sign of the mantissa.
pub proof fn lemma_normal_form_odd(m: int, e: int)
    requires
        m != 0,
    ensures
        normal_form(m, e).0 % 2 != 0,
        normal_form(m, e).0 < 0 <==> m < 0,
        normal_form(m, e).0 != 0,
    decreases abs(m),
{
    if m % 2 == 0 {
        lemma_normal_form_odd(m / 2, e + 1);
    }
}


/// A DER INTEGER reads back as the number it encodes, and dropping a leading `0x00` or
/// `0xff` byte would change the number read.
pub proof fn lemma_integer_round_trip(n: int, content: Seq<u8>)
    requires
        is_der_integer(content, n),
    ensures
        be_signed(content) == n,
        content.len() >= 1,
        content.len() >= 2 && (content[0] == 0 || content[0] == 255) ==> be_signed(content.drop_first()) != n,
{
    if content.len() >= 2 && (content[0] == 0 || content[0] == 255) {
        let t = content.drop_first();
        let p = pow256((content.len() - 1) as nat);
        lemma_be_unsigned_bound(t);
        assert(t.len() == content.len() - 1);
        assert(be_unsigned(content) == content[0] * p + be_unsigned(t));
        assert(t[0] == content[1]);
        assert(pow256(content.len()) == 256 * p);
        if content[0] == 0 {
            assert(content[1] >= 128);
            assert(be_signed(content) == be_unsigned(t));
            assert(be_signed(t) == be_unsigned(t) - p);
        } else {
            assert(content[1] < 128);
            assert(be_signed(content) == 255 * p + be_unsigned(t) - 256 * p);
            assert(be_signed(t) == be_unsigned(t));
        }
    }
}

/// The flags byte of a binary REAL has bit 7 set and bit 6 set exactly for a negative
/// mantissa, and the mantissa block holds an odd number.
pub proof fn lemma_real_encoding_shape(r: Seq<u8>, m: int, e: int)
    requires
        m != 0,
        is_der_real_base2(r, m, e),
    ensures
        r.len() >= 1,
        r[0] & 0x80u8 == 0x80u8,
        (r[0] & 0x40u8 == 0x40u8) <==> m < 0,
        exists|eb: Seq<u8>, nb: Seq<u8>|
            #![trigger real_layout(r, eb, nb, normal_form(m, e).0, normal_form(m, e).1)]
            real_layout(r, eb, nb, normal_form(m, e).0, normal_form(m, e).1) && be_signed(nb) % 2 == 1,
{
    lemma_normal_form_odd(m, e);
    let m2 = normal_form(m, e).0;
    let e2 = normal_form(m, e).1;
    let (eb, nb) = choose|eb: Seq<u8>, nb: Seq<u8>| #[trigger] real_layout(r, eb, nb, m2, e2);
    assert(r[0] == real_flags(m2 < 0, eb.len()));
    let f = r[0];
    let c: u8 = if eb.len() <= 3 {
        (eb.len() - 1) as u8
    } else {
        3u8
    };
    assert(c <= 3);
    if m2 < 0 {
        assert(f == (192u8 + c) as u8);
        assert(f & 0x80u8 == 0x80u8 && f & 0x40u8 == 0x40u8) by (bit_vector)
            requires
                c <= 3u8,
                f == (192u8 + c) as u8,
        ;
    } else {
        assert(f == (128u8 + c) as u8);
        assert(f & 0x80u8 == 0x80u8 && f & 0x40u8 != 0x40u8) by (bit_vector)
            requires
                c <= 3u8,
                f == (128u8 + c) as u8,
        ;
    }
    assert(be_signed(nb) == abs(m2) as int);
    assert(real_layout(r, eb, nb, normal_form(m, e).0, normal_form(m, e).1));
}


/// The UTF-16 code units of a character sequence.
pub open spec fn utf16_of(s: Seq<char>) -> Seq<u16>
    decreases s.len(),
{
    if s.len() == 0 {
        Seq::empty()
    } else {
        let c = s[0] as u32;
        (if c < 0x10000 {
            seq![c as u16]
        } else {
            let v = c - 0x10000;
            seq![(0xD800 + v / 0x400) as u16, (0xDC00 + v % 0x400) as u16]
        }) + utf16_of(s.drop_first())
    }
}

/// 16-bit units as big-endian bytes.
pub open spec fn be_bytes16(u: Seq<u16>) -> Seq<u8>
    decreases u.len(),
{
    if u.len() == 0 {
        Seq::empty()
    } else {
        seq![(u[0] / 256) as u8, (u[0] % 256) as u8] + be_bytes16(u.drop_first())
    }
}

/// 32-bit units as big-endian bytes.
pub open spec fn be_bytes32(u: Seq<u32>) -> Seq<u8>
    decreases u.len(),
{
    if u.len() == 0 {
        Seq::empty()
    } else {
        seq![
            (u[0] / 0x1000000) as u8,
            (u[0] / 0x10000 % 256) as u8,
            (u[0] / 256 % 256) as u8,
            (u[0] % 256) as u8,
        ] + be_bytes32(u.drop_first())
    }
}

/// The string types whose values this encoder writes.
pub open spec fn is_encodable_string_tag(t: TagType) -> bool {
    match t {
        TagType::NumericString | TagType::PrintableString | TagType::IA5String
        | TagType::VisibleString | TagType::TeletexString | TagType::VideotexString
        | TagType::UTF8String | TagType::GeneralString | TagType::GraphicString
        | TagType::ObjectDescriptor | TagType::BMPString | TagType::UniversalString => true,
        _ => false,
    }
}

/// Types whose characters are written one byte each, as their 7-bit codes.
///
/// For NumericString, PrintableString, IA5String and VisibleString these are the T.50
/// codes. TeletexString and VideotexString are written the same way: the value checks
/// admit for them only the 7-bit graphic characters, space and DEL, and this library
/// holds no T.61 or T.100 code table, so each such character is written as its 7-bit
/// code. Where T.61 or T.100 place a character at another code, this output differs
/// from theirs.
pub open spec fn is_seven_bit_tag(t: TagType) -> bool {
    match t {
        TagType::NumericString | TagType::PrintableString | TagType::IA5String
        | TagType::VisibleString | TagType::TeletexString | TagType::VideotexString => true,
        _ => false,
    }
}

/// The DER content of a string of the given type, front to back.
pub open spec fn string_content(t: TagType, s: Seq<char>) -> Seq<u8> {
    if is_seven_bit_tag(t) {
        s.map_values(|c: char| c as u8)
    } else if t == TagType::BMPString {
        be_bytes16(utf16_of(s))
    } else if t == TagType::UniversalString {
        be_bytes32(s.map_values(|c: char| c as u32))
    } else {
        encode_utf8(s)
    }
}

/// Relies on `widestring::Utf16String::from_str`, which pushes each character's UTF-16
/// encoding (`char::encode_utf16`), and `into_vec`, which hands the units over.
#[verifier::external_body]
fn utf16_units(s: &str) -> (r: Vec<u16>)
    ensures
        r@ == utf16_of(s@),
{
    Utf16String::from_str(s).into_vec()
}

/// Relies on `widestring::Utf32String::from_str`, which pushes each character as its
/// scalar value, and `into_vec`, which hands the units over.
#[verifier::external_body]
fn utf32_units(s: &str) -> (r: Vec<u32>)
    ensures
        r@ == s@.map_values(|c: char| c as u32),
{
    Utf32String::from_str(s).into_vec()
}

fn push_reversed(buf: &mut Vec<u8>, bytes: &Vec<u8>)
    ensures
        appends_reversed(old(buf)@, final(buf)@, bytes@),
{
    let ghost start = buf@;
    let mut k: usize = bytes.len();
    while k > 0
        invariant
            k <= bytes@.len(),
            buf@.len() >= start.len(),
            buf@.subrange(0, start.len() as int) == start,
            appended(start, buf@).reverse() == bytes@.subrange(k as int, bytes@.len() as int),
        decreases k,
    {
        let ghost before = buf@;
        buf.push(bytes[k - 1]);
        proof {
            assert(appended(start, buf@) =~= appended(start, before).push(bytes@[k - 1]));
            lemma_reverse_push(appended(start, before), bytes@[k - 1]);
            assert(bytes@.subrange(k - 1, bytes@.len() as int) =~= seq![bytes@[k - 1]] + bytes@.subrange(k as int, bytes@.len() as int));
            assert(buf@.subrange(0, start.len() as int) =~= start);
        }
        k = k - 1;
    }
    assert(bytes@.subrange(0, bytes@.len() as int) =~= bytes@);
}

/// Appends the DER content of a restricted character string, back to front: 7-bit codes
/// for the T.50 family, TeletexString and VideotexString; UTF-8 for UTF8String,
/// GeneralString, GraphicString and ObjectDescriptor; big-endian UTF-16 units for
/// BMPString; big-endian UTF-32 units for UniversalString.
pub fn der_encode_character_string(buf: &mut Vec<u8>, tag_type: TagType, str: &str)
    requires
        is_encodable_string_tag(tag_type),
        is_seven_bit_tag(tag_type) ==> forall|i: int| 0 <= i < str@.len() ==> (#[trigger] str@[i] as u32) <= 0x7f,
    ensures
        appends_reversed(old(buf)@, final(buf)@, string_content(tag_type, str@)),
{
    let mut bytes: Vec<u8> = Vec::new();
    match tag_type {
        TagType::NumericString | TagType::PrintableString | TagType::IA5String
        | TagType::VisibleString | TagType::TeletexString | TagType::VideotexString => {
            let n = str.unicode_len();
            let mut i: usize = 0;
            while i < n
                invariant
                    n == str@.len(),
                    i <= n,
                    bytes@ == str@.subrange(0, i as int).map_values(|c: char| c as u8),
                decreases n - i,
            {
                let c = str.get_char(i);
                bytes.push(c as u8);
                proof {
                    assert(str@.subrange(0, i + 1) =~= str@.subrange(0, i as int).push(c));
                    assert(bytes@ =~= str@.subrange(0, i + 1).map_values(|c: char| c as u8));
                }
                i = i + 1;
            }
            assert(str@.subrange(0, n as int) =~= str@);
        },
        TagType::BMPString => {
            let units = utf16_units(str);
            let mut i: usize = 0;
            while i < units.len()
                invariant
                    i <= units@.len(),
                    bytes@ == be_bytes16(units@.subrange(0, i as int)),
                decreases units@.len() - i,
            {
                let u = units[i];
                bytes.push((u / 256) as u8);
                bytes.push((u % 256) as u8);
                proof {
                    lemma_be_bytes16_push(units@.subrange(0, i as int), u);
                    assert(units@.subrange(0, i + 1) =~= units@.subrange(0, i as int).push(u));
                }
                i = i + 1;
            }
            assert(units@.subrange(0, units@.len() as int) =~= units@);
        },
        TagType::UniversalString => {
            let units = utf32_units(str);
            let mut i: usize = 0;
            while i < units.len()
                invariant
                    i <= units@.len(),
                    bytes@ == be_bytes32(units@.subrange(0, i as int)),
                decreases units@.len() - i,
            {
                let u = units[i];
                bytes.push((u / 0x1000000) as u8);
                bytes.push((u / 0x10000 % 256) as u8);
                bytes.push((u / 256 % 256) as u8);
                bytes.push((u % 256) as u8);
                proof {
                    lemma_be_bytes32_push(units@.subrange(0, i as int), u);
                    assert(units@.subrange(0, i + 1) =~= units@.subrange(0, i as int).push(u));
                }
                i = i + 1;
            }
            assert(units@.subrange(0, units@.len() as int) =~= units@);
        },
        _ => {
            let raw: &[u8] = str.as_bytes();
            let mut i: usize = 0;
            while i < raw.len()
                invariant
                    i <= raw@.len(),
                    bytes@ == raw@.subrange(0, i as int),
                decreases raw@.len() - i,
            {
                bytes.push(raw[i]);
                i = i + 1;
            }
            assert(raw@.subrange(0, raw@.len() as int) =~= raw@);
        },
    }
    push_reversed(buf, &bytes);
}

proof fn lemma_be_bytes16_push(u: Seq<u16>, x: u16)
    ensures
        be_bytes16(u.push(x)) == be_bytes16(u) + seq![(x / 256) as u8, (x % 256) as u8],
    decreases u.len(),
{
    if u.len() == 0 {
        assert(u.push(x).drop_first() =~= Seq::<u16>::empty());
        assert(u.push(x)[0] == x);
        assert(be_bytes16(Seq::<u16>::empty()) =~= Seq::<u8>::empty());
        assert(u =~= Seq::<u16>::empty());
        assert(be_bytes16(u.push(x)) =~= seq![(x / 256) as u8, (x % 256) as u8]);
    } else {
        lemma_be_bytes16_push(u.drop_first(), x);
        assert(u.push(x).drop_first() =~= u.drop_first().push(x));
        assert(be_bytes16(u.push(x)) =~= be_bytes16(u) + seq![(x / 256) as u8, (x % 256) as u8]);
    }
}

proof fn lemma_be_bytes32_push(u: Seq<u32>, x: u32)
    ensures
        be_bytes32(u.push(x)) == be_bytes32(u) + seq![
            (x / 0x1000000) as u8,
            (x / 0x10000 % 256) as u8,
            (x / 256 % 256) as u8,
            (x % 256) as u8,
        ],
    decreases u.len(),
{
    if u.len() == 0 {
        assert(u.push(x).drop_first() =~= Seq::<u32>::empty());
        assert(u.push(x)[0] == x);
        assert(be_bytes32(Seq::<u32>::empty()) =~= Seq::<u8>::empty());
        assert(u =~= Seq::<u32>::empty());
        assert(be_bytes32(u.push(x)) =~= seq![
            (x / 0x1000000) as u8,
            (x / 0x10000 % 256) as u8,
            (x / 256 % 256) as u8,
            (x % 256) as u8,
        ]);
    } else {
        lemma_be_bytes32_push(u.drop_first(), x);
        assert(u.push(x).drop_first() =~= u.drop_first().push(x));
        assert(be_bytes32(u.push(x)) =~= be_bytes32(u) + seq![
            (x / 0x1000000) as u8,
            (x / 0x10000 % 256) as u8,
            (x / 256 % 256) as u8,
            (x % 256) as u8,
        ]);
    }
}


/// The bytes in reverse order.
fn reversed(buf: &Vec<u8>) -> (r: Vec<u8>)
    ensures
        r@ == buf@.reverse(),
{
    let mut out: Vec<u8> = Vec::new();
    let mut k: usize = buf.len();
    while k > 0
        invariant
            k <= buf@.len(),
            out@ == buf@.subrange(k as int, buf@.len() as int).reverse(),
        decreases k,
    {
        proof {
            lemma_reverse_concat(seq![buf@[k - 1]], buf@.subrange(k as int, buf@.len() as int));
            assert(buf@.subrange(k - 1, buf@.len() as int) =~= seq![buf@[k - 1]] + buf@.subrange(k as int, buf@.len() as int));
            assert(seq![buf@[k - 1]].reverse() =~= seq![buf@[k - 1]]);
        }
        out.push(buf[k - 1]);
        k = k - 1;
    }
    assert(buf@.subrange(0, buf@.len() as int) =~= buf@);
    out
}

proof fn lemma_appended_to_empty(buf: Seq<u8>)
    ensures
        appended(Seq::<u8>::empty(), buf) == buf,
{
    assert(appended(Seq::<u8>::empty(), buf) =~= buf);
}

/// The DER content of an INTEGER, front to back.
pub fn der_integer_content(num: &BigInteger) -> (r: Vec<u8>)
    ensures
        is_der_integer(r@, num@),
{
    let mut buf: Vec<u8> = Vec::new();
    der_encode_integer(&mut buf, num);
    proof {
        lemma_appended_to_empty(buf@);
    }
    reversed(&buf)
}

/// The DER content of a base-2 REAL `mantissa * 2^exponent`, front to back.
pub fn der_real_content(mantissa: BigInteger, exponent: BigInteger) -> (r: Vec<u8>)
    requires
        mantissa@ != 0 ==> real_exponent_fits(mantissa@, exponent@),
    ensures
        mantissa@ == 0 ==> r@.len() == 0,
        mantissa@ != 0 ==> is_der_real_base2(r@, mantissa@, exponent@),
{
    let mut buf: Vec<u8> = Vec::new();
    der_encode_real(&mut buf, mantissa, 2, exponent);
    proof {
        lemma_appended_to_empty(buf@);
    }
    reversed(&buf)
}

/// The DER content of a restricted character string, front to back.
pub fn der_character_string_content(tag_type: TagType, str: &str) -> (r: Vec<u8>)
    requires
        is_encodable_string_tag(tag_type),
        is_seven_bit_tag(tag_type) ==> forall|i: int| 0 <= i < str@.len() ==> (#[trigger] str@[i] as u32) <= 0x7f,
    ensures
        r@ == string_content(tag_type, str@),
{
    let mut buf: Vec<u8> = Vec::new();
    der_encode_character_string(&mut buf, tag_type, str);
    proof {
        lemma_appended_to_empty(buf@);
    }
    reversed(&buf)
}

} // verus!
