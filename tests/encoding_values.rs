use asn1chef::bigint::BigInteger;
use asn1chef::encoding::{der_decode_integer, der_encode_character_string, der_encode_integer, der_encode_real};
use asn1chef::types::TagType;
use asn1chef::encoding::{der_character_string_content, der_integer_content, der_real_content};

fn big(v: i64) -> BigInteger {
    BigInteger::from_i64(v)
}

fn value_of(b: &BigInteger) -> i128 {
    let mut v: i128 = 0;
    for (i, byte) in b.magnitude.iter().enumerate() {
        v += (*byte as i128) << (8 * i);
    }
    if b.negative {
        -v
    } else {
        v
    }
}

fn encode_integer(v: i64) -> Vec<u8> {
    let mut buf = Vec::new();
    der_encode_integer(&mut buf, &big(v));
    buf.into_iter().rev().collect()
}

fn test_der_encode_real(mantissa: i64, base: i64, exponent: i64, expected_der: &[u8]) {
    let mut buf = Vec::with_capacity(expected_der.len());
    der_encode_real(&mut buf, big(mantissa), base, big(exponent));
    let buf = buf.into_iter().rev().collect::<Vec<u8>>();
    assert_eq!(
        buf.as_slice(),
        expected_der,
        "{{ mantissa = {}, base = {}, exponent = {} }}",
        mantissa,
        base,
        exponent,
    );
}

#[test]
pub fn test_der_encode_real_base_2() {
    test_der_encode_real(0, 2, 0, &[]); // 0.0 with exp = 0
    test_der_encode_real(0, 2, 1, &[]); // 0.0 with exp = 1
    test_der_encode_real(0, 2, 255, &[]); // 0.0 with exp = 255

    test_der_encode_real(1, 2, 0, &[0x80, 0x00, 0x01]); // 1.0
    test_der_encode_real(1, 2, 1, &[0x80, 0x01, 0x01]); // 2.0 with exp = 1
    test_der_encode_real(2, 2, 0, &[0x80, 0x01, 0x01]); // 2.0 with exp = 0
    test_der_encode_real(8, 2, 0, &[0x80, 0x03, 0x01]); // 8.0 with exp = 0
    test_der_encode_real(4, 2, 1, &[0x80, 0x03, 0x01]); // 8.0 with exp = 1
    test_der_encode_real(2, 2, 2, &[0x80, 0x03, 0x01]); // 8.0 with exp = 2
    test_der_encode_real(1, 2, 3, &[0x80, 0x03, 0x01]); // 8.0 with exp = 3
    test_der_encode_real(1, 2, -1, &[0x80, 0xFF, 0x01]); // 0.5 with exp = -1
    test_der_encode_real(2, 2, -2, &[0x80, 0xFF, 0x01]); // 0.5 with exp = -2
    test_der_encode_real(4, 2, -3, &[0x80, 0xFF, 0x01]); // 0.5 with exp = -3
    test_der_encode_real(8, 2, -4, &[0x80, 0xFF, 0x01]); // 0.5 with exp = -4

    test_der_encode_real(-1, 2, 0, &[0xC0, 0x00, 0x01]); // -1.0
    test_der_encode_real(-1, 2, 1, &[0xC0, 0x01, 0x01]); // -2.0 with exp = 1
    test_der_encode_real(-2, 2, 0, &[0xC0, 0x01, 0x01]); // -2.0 with exp = 0
    test_der_encode_real(-8, 2, 0, &[0xC0, 0x03, 0x01]); // -8.0 with exp = 0
    test_der_encode_real(-4, 2, 1, &[0xC0, 0x03, 0x01]); // -8.0 with exp = 1
    test_der_encode_real(-2, 2, 2, &[0xC0, 0x03, 0x01]); // -8.0 with exp = 2
    test_der_encode_real(-1, 2, 3, &[0xC0, 0x03, 0x01]); // -8.0 with exp = 3
    test_der_encode_real(-1, 2, -1, &[0xC0, 0xFF, 0x01]); // -0.5 with exp = -1
    test_der_encode_real(-2, 2, -2, &[0xC0, 0xFF, 0x01]); // -0.5 with exp = -2
    test_der_encode_real(-4, 2, -3, &[0xC0, 0xFF, 0x01]); // -0.5 with exp = -3
    test_der_encode_real(-8, 2, -4, &[0xC0, 0xFF, 0x01]); // -0.5 with exp = -4
}

#[test]
fn real_scenarios() {
    test_der_encode_real(1, 2, 0, &[0x80, 0x00, 0x01]);
    test_der_encode_real(8, 2, 0, &[0x80, 0x03, 0x01]);
}

#[test]
fn real_flags_and_odd_mantissa() {
    test_der_encode_real(3, 2, 0, &[0x80, 0x00, 0x03]);
    test_der_encode_real(-12, 2, 0, &[0xC0, 0x02, 0x03]);
    test_der_encode_real(255, 2, 0, &[0x80, 0x00, 0x00, 0xFF]);
    test_der_encode_real(1, 2, 300, &[0x81, 0x01, 0x2C, 0x01]);
    test_der_encode_real(1, 2, 100000, &[0x82, 0x01, 0x86, 0xA0, 0x01]);
    test_der_encode_real(1, 2, 1 << 40, &[0x83, 0x06, 0x01, 0x00, 0x00, 0x00, 0x00, 0x00, 0x01]);
}

#[test]
fn integer_scenarios() {
    assert_eq!(encode_integer(127), vec![0x7F]);
    assert_eq!(encode_integer(128), vec![0x00, 0x80]);
    assert_eq!(encode_integer(-128), vec![0x80]);
    assert_eq!(encode_integer(-129), vec![0xFF, 0x7F]);
    assert_eq!(encode_integer(0), vec![0x00]);
}

#[test]
fn integer_more_values() {
    assert_eq!(encode_integer(256), vec![0x01, 0x00]);
    assert_eq!(encode_integer(-1), vec![0xFF]);
    assert_eq!(encode_integer(-256), vec![0xFF, 0x00]);
    assert_eq!(encode_integer(32767), vec![0x7F, 0xFF]);
    assert_eq!(encode_integer(32768), vec![0x00, 0x80, 0x00]);
    assert_eq!(encode_integer(i64::MIN), vec![0x80, 0, 0, 0, 0, 0, 0, 0]);
    // a zero with the negative flag set is still zero
    let mut buf = Vec::new();
    der_encode_integer(&mut buf, &BigInteger::new(true, vec![0, 0]));
    assert_eq!(buf, vec![0x00]);
}

#[test]
fn integer_round_trip() {
    for v in [0i64, 1, -1, 127, 128, -128, -129, 255, 256, 65535, -65536, 1 << 40, i64::MAX, i64::MIN] {
        let bytes = encode_integer(v);
        assert!(bytes.len() == 1 || !(bytes[0] == 0 && bytes[1] < 0x80));
        assert!(bytes.len() == 1 || !(bytes[0] == 0xFF && bytes[1] >= 0x80));
        let back = der_decode_integer(&bytes).unwrap();
        assert_eq!(value_of(&back), v as i128);
    }
}

#[test]
fn decode_integer_two_complement() {
    assert_eq!(value_of(&der_decode_integer(&[0xFF, 0x7F]).unwrap()), -129);
    assert_eq!(value_of(&der_decode_integer(&[0x00, 0x80]).unwrap()), 128);
    assert_eq!(value_of(&der_decode_integer(&[0x80]).unwrap()), -128);
    assert_eq!(value_of(&der_decode_integer(&[0x00, 0x00, 0x01]).unwrap()), 1);
}

#[test]
fn decode_integer_rejects_empty() {
    let e = der_decode_integer(&[]).unwrap_err();
    assert!(matches!(e.kind, asn1chef::error::ErrorKind::Io(_)));
}

fn encode_string(tag: TagType, s: &str) -> Vec<u8> {
    let mut buf = Vec::new();
    der_encode_character_string(&mut buf, tag, s);
    buf.into_iter().rev().collect()
}

#[test]
fn character_string_encodings() {
    assert_eq!(encode_string(TagType::IA5String, "Hi!"), b"Hi!".to_vec());
    assert_eq!(encode_string(TagType::PrintableString, "AB 1"), b"AB 1".to_vec());
    assert_eq!(encode_string(TagType::TeletexString, "x"), vec![0x78]);
    assert_eq!(encode_string(TagType::UTF8String, "é"), vec![0xC3, 0xA9]);
    assert_eq!(encode_string(TagType::GraphicString, "ab"), vec![0x61, 0x62]);
    assert_eq!(encode_string(TagType::BMPString, "a€"), vec![0x00, 0x61, 0x20, 0xAC]);
    assert_eq!(encode_string(TagType::BMPString, "𝄞"), vec![0xD8, 0x34, 0xDD, 0x1E]);
    assert_eq!(encode_string(TagType::UniversalString, "a𝄞"), vec![0, 0, 0, 0x61, 0, 0x01, 0xD1, 0x1E]);
    assert_eq!(encode_string(TagType::NumericString, ""), Vec::<u8>::new());
}

#[test]
fn encoders_append_after_existing_bytes() {
    let mut buf = vec![0xAA];
    der_encode_integer(&mut buf, &big(-129));
    assert_eq!(buf, vec![0xAA, 0x7F, 0xFF]);
    let mut buf = vec![0xAA];
    der_encode_character_string(&mut buf, TagType::IA5String, "ab");
    assert_eq!(buf, vec![0xAA, b'b', b'a']);
}

#[test]
fn content_functions_are_front_to_back() {
    assert_eq!(der_integer_content(&big(-129)), vec![0xFF, 0x7F]);
    assert_eq!(der_integer_content(&big(0)), vec![0x00]);
    assert_eq!(der_real_content(big(8), big(0)), vec![0x80, 0x03, 0x01]);
    assert_eq!(der_real_content(big(0), big(5)), Vec::<u8>::new());
    assert_eq!(der_character_string_content(TagType::BMPString, "a"), vec![0x00, 0x61]);
}
