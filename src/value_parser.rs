//! Type-directed lowering of syntax-tree values.
use vstd::prelude::*;
use vstd::utf8::encode_utf8;
use crate::ast::{
    AstBuiltinValue, AstDecimalValue, AstIntegerValue, AstNamedValue, AstObjectIdComponent,
    AstSpecialRealValue, AstStringLiteral, AstValue, AstValueAssignment, StringKind,
};
use crate::bigint::{big_add, big_from_i64, big_mul, big_parse_unsigned, big_pow, le_value, BigInteger};
use crate::context::{index_of, DeclaredValue};
use crate::error::{ast_error, AstElement, Error, Loc};
use crate::module::{copy_vec, symbol_resolves_to, ModuleIdentifier, QualifiedIdentifier};
use crate::time::{date_of, date_time_of, is_date, is_date_time, is_time_of_day, is_utc_time, time_of_day_of, utc_time_of, Date, DateTime, TimeOfDay, UTCTime};
use crate::type_parser::{ast_simple, ast_tag, parse_type, resolve, AstParser};
use crate::types::{
    BuiltinType, EnumerationItem, EnumerationItemValue, ResolvedType, StructureComponent,
    SubtypeElement, TagType,
};
use crate::values::{
    copy_value, BuiltinValue, ChoiceValue, ContainingValue, RealLiteral, StructureValue,
    StructureValueComponent, Value,
};

verus! {

// ---------------------------------------------------------------- character strings

pub open spec fn is_control(u: u32) -> bool {
    u <= 31 || (127 <= u && u <= 159)
}

pub open spec fn is_ascii_alphanumeric(u: u32) -> bool {
    (48 <= u && u <= 57) || (65 <= u && u <= 90) || (97 <= u && u <= 122)
}

/// One of the punctuation characters of PrintableString: space and `'()+,-./:=?`.
pub open spec fn is_printable_punctuation(u: u32) -> bool {
    u == 32 || (39 <= u && u <= 41) || (43 <= u && u <= 47) || u == 58 || u == 61 || u == 63
}

/// The restricted character string types.
pub open spec fn is_string_tag(t: TagType) -> bool {
    match t {
        TagType::UTF8String | TagType::UniversalString | TagType::GeneralString
        | TagType::BMPString | TagType::CharacterString | TagType::NumericString
        | TagType::PrintableString | TagType::TeletexString | TagType::VideotexString
        | TagType::VisibleString | TagType::IA5String | TagType::GraphicString
        | TagType::ObjectDescriptor => true,
        _ => false,
    }
}

/// Whether a value of the string type `t` may hold the character `c`.
pub open spec fn char_allowed(t: TagType, c: char) -> bool {
    let u = c as u32;
    match t {
        TagType::NumericString => (48 <= u && u <= 57) || u == 32,
        TagType::PrintableString => is_ascii_alphanumeric(u) || is_printable_punctuation(u),
        TagType::TeletexString | TagType::VideotexString => (33 <= u && u <= 126) || u == 32 || u
            == 127,
        TagType::VisibleString => (33 <= u && u <= 126) || u == 32,
        TagType::IA5String => u <= 127,
        TagType::GraphicString | TagType::ObjectDescriptor => u == 32 || !is_control(u),
        _ => true,
    }
}

pub open spec fn all_chars_allowed(t: TagType, s: Seq<char>) -> bool {
    forall|i: int| 0 <= i < s.len() ==> char_allowed(t, #[trigger] s[i])
}

fn is_string_tag_exec(t: TagType) -> (r: bool)
    ensures
        r == is_string_tag(t),
{
    match t {
        TagType::UTF8String | TagType::UniversalString | TagType::GeneralString
        | TagType::BMPString | TagType::CharacterString | TagType::NumericString
        | TagType::PrintableString | TagType::TeletexString | TagType::VideotexString
        | TagType::VisibleString | TagType::IA5String | TagType::GraphicString
        | TagType::ObjectDescriptor => true,
        _ => false,
    }
}

fn char_allowed_exec(t: TagType, c: char) -> (r: bool)
    ensures
        r == char_allowed(t, c),
{
    let u = c as u32;
    match t {
        TagType::NumericString => (48 <= u && u <= 57) || u == 32,
        TagType::PrintableString => (48 <= u && u <= 57) || (65 <= u && u <= 90) || (97 <= u && u
            <= 122) || u == 32 || (39 <= u && u <= 41) || (43 <= u && u <= 47) || u == 58 || u
            == 61 || u == 63,
        TagType::TeletexString | TagType::VideotexString => (33 <= u && u <= 126) || u == 32 || u
            == 127,
        TagType::VisibleString => (33 <= u && u <= 126) || u == 32,
        TagType::IA5String => u <= 127,
        TagType::GraphicString | TagType::ObjectDescriptor => u == 32 || !(u <= 31 || (127 <= u
            && u <= 159)),
        _ => true,
    }
}

/// Accepts a quoted string for a restricted character string type when each of its
/// characters is allowed there.
fn parse_character_string(str_lit: &AstElement<AstStringLiteral>, tag_type: TagType) -> (r: Result<
    BuiltinValue,
    Error,
>)
    ensures
        r is Ok <==> str_lit.element.kind == StringKind::C && is_string_tag(tag_type)
            && all_chars_allowed(tag_type, str_lit.element.data@),
        r matches Ok(v) ==> v matches BuiltinValue::CharacterString(t, s) && t == tag_type && s@
            == str_lit.element.data@,
        r matches Err(e) ==> e.is_ast() && e.loc == str_lit.loc,
{
    if str_lit.element.kind != StringKind::C {
        return Err(ast_error("only a quoted string can be assigned to a character string type", str_lit.loc));
    }
    if !is_string_tag_exec(tag_type) {
        return Err(ast_error("the type is not a character string type", str_lit.loc));
    }
    let data: &str = str_lit.element.data.as_str();
    let n = data.unicode_len();
    let mut i: usize = 0;
    while i < n
        invariant
            n == data@.len(),
            data@ == str_lit.element.data@,
            i <= n,
            forall|j: int| 0 <= j < i ==> char_allowed(tag_type, #[trigger] data@[j]),
        decreases n - i,
    {
        if !char_allowed_exec(tag_type, data.get_char(i)) {
            return Err(
                ast_error(
                    "provided cstring does not meet the character constraints of its type",
                    str_lit.loc,
                ),
            );
        }
        i = i + 1;
    }
    Ok(BuiltinValue::CharacterString(tag_type, str_lit.element.data.clone()))
}

// ---------------------------------------------------------------- octet strings

/// The value of a hexadecimal digit character, if it is one.
pub open spec fn hex_digit(c: char) -> Option<nat> {
    let u = c as u32;
    if 48 <= u && u <= 57 {
        Some((u - 48) as nat)
    } else if 97 <= u && u <= 102 {
        Some((u - 87) as nat)
    } else if 65 <= u && u <= 70 {
        Some((u - 55) as nat)
    } else {
        None
    }
}

/// `c` is a digit of the radix (2 or 16).
pub open spec fn is_radix_digit(c: char, radix: nat) -> bool {
    hex_digit(c) matches Some(d) && d < radix
}

pub open spec fn all_radix_digits(s: Seq<char>, radix: nat) -> bool {
    forall|i: int| 0 <= i < s.len() ==> is_radix_digit(#[trigger] s[i], radix)
}

pub open spec fn chars_per_byte(radix: nat) -> nat {
    if radix == 16 {
        2
    } else {
        8
    }
}

/// The value of the `k` characters of `s` from `start` on, padded on the right with `'0'`.
pub open spec fn chunk_value(s: Seq<char>, start: int, k: nat, radix: nat) -> nat
    decreases k,
{
    if k == 0 {
        0
    } else {
        let d: nat = if 0 <= start + k - 1 < s.len() {
            match hex_digit(s[start + k - 1]) {
                Some(d) => d,
                None => 0,
            }
        } else {
            0
        };
        chunk_value(s, start, (k - 1) as nat, radix) * radix + d
    }
}

/// The bytes of a binary or hexadecimal literal: one per group of 8 or 2 digits, the last
/// group padded on the right with `'0'`.
pub open spec fn octets_of(s: Seq<char>, radix: nat) -> Seq<u8> {
    let k = chars_per_byte(radix);
    Seq::new(
        (s.len() / k + if s.len() % k != 0 {
            1nat
        } else {
            0nat
        }) as nat,
        |i: int| chunk_value(s, i * k, k, radix) as u8,
    )
}

pub open spec fn rpow(radix: nat, k: nat) -> nat
    decreases k,
{
    if k == 0 {
        1
    } else {
        radix * rpow(radix, (k - 1) as nat)
    }
}

proof fn lemma_chunk_bound(s: Seq<char>, start: int, k: nat, radix: nat)
    requires
        radix == 2 || radix == 16,
        all_radix_digits(s, radix),
    ensures
        chunk_value(s, start, k, radix) < rpow(radix, k),
    decreases k,
{
    if k > 0 {
        lemma_chunk_bound(s, start, (k - 1) as nat, radix);
        let c = chunk_value(s, start, (k - 1) as nat, radix);
        let p = rpow(radix, (k - 1) as nat);
        let d: nat = if 0 <= start + k - 1 < s.len() {
            assert(is_radix_digit(s[start + k - 1], radix));
            match hex_digit(s[start + k - 1]) {
                Some(d) => d,
                None => 0,
            }
        } else {
            0
        };
        assert(d < radix);
        assert(c * radix + d < radix * p) by (nonlinear_arith)
            requires
                c < p,
                d < radix,
        ;
    }
}

fn digit_of(c: char) -> (r: u32)
    ensures
        hex_digit(c) matches Some(d) ==> r == d,
{
    let u = c as u32;
    if 48 <= u && u <= 57 {
        u - 48
    } else if 97 <= u && u <= 102 {
        u - 87
    } else if 65 <= u && u <= 70 {
        u - 55
    } else {
        0
    }
}

fn is_radix_digit_exec(c: char, radix: u32) -> (r: bool)
    ensures
        r == is_radix_digit(c, radix as nat),
{
    let u = c as u32;
    let d: u32 = if 48 <= u && u <= 57 {
        u - 48
    } else if 97 <= u && u <= 102 {
        u - 87
    } else if 65 <= u && u <= 70 {
        u - 55
    } else {
        return false;
    };
    d < radix
}

/// Decodes a binary or hexadecimal literal into bytes, a fixed number of digits per byte.
fn parse_octet_string(str: &str, radix: u32) -> (r: Vec<u8>)
    requires
        radix == 2 || radix == 16,
        all_radix_digits(str@, radix as nat),
    ensures
        r@ == octets_of(str@, radix as nat),
{
    let n = str.unicode_len();
    let k: usize = if radix == 16 {
        2
    } else {
        8
    };
    let count = n / k + if n % k != 0 {
        1
    } else {
        0
    };
    let ghost s = str@;
    let mut bytes: Vec<u8> = Vec::new();
    let mut idx: usize = 0;
    while idx < count
        invariant
            n == s.len(),
            s == str@,
            k == chars_per_byte(radix as nat),
            radix == 2 || radix == 16,
            all_radix_digits(s, radix as nat),
            count == octets_of(s, radix as nat).len(),
            idx <= count,
            bytes@ == octets_of(s, radix as nat).subrange(0, idx as int),
        decreases count - idx,
    {
        assert(idx * k <= n) by (nonlinear_arith)
            requires
                idx < count,
                count == n / k + if n % k != 0 {
                    1int
                } else {
                    0int
                },
                k > 0,
        ;
        let start = idx * k;
        let mut acc: u32 = 0;
        let mut j: usize = 0;
        while j < k
            invariant
                n == s.len(),
                s == str@,
                radix == 2 || radix == 16,
                all_radix_digits(s, radix as nat),
                k == chars_per_byte(radix as nat),
                start <= n,
                j <= k,
                acc == chunk_value(s, start as int, j as nat, radix as nat),
            decreases k - j,
        {
            proof {
                lemma_chunk_bound(s, start as int, j as nat, radix as nat);
                reveal_with_fuel(rpow, 9);
                assert(rpow(radix as nat, j as nat) <= 256) by {
                    if radix == 16 {
                        assert(j < 2);
                    } else {
                        assert(j < 8);
                    }
                }
            }
            let d: u32 = if j < n - start {
                let c = str.get_char(start + j);
                proof {
                    assert(is_radix_digit(s[start + j], radix as nat));
                }
                digit_of(c)
            } else {
                0
            };
            acc = acc * radix + d;
            j = j + 1;
        }
        proof {
            lemma_chunk_bound(s, start as int, k as nat, radix as nat);
            reveal_with_fuel(rpow, 9);
        }
        bytes.push(acc as u8);
        proof {
            assert(bytes@ =~= octets_of(s, radix as nat).subrange(0, idx + 1));
        }
        idx = idx + 1;
    }
    assert(bytes@ =~= octets_of(s, radix as nat));
    bytes
}


// ---------------------------------------------------------------- numbers

/// The value of a number literal.
pub open spec fn integer_literal_value(n: AstIntegerValue) -> int {
    if n.negative {
        -le_value(n.magnitude@)
    } else {
        le_value(n.magnitude@) as int
    }
}

pub fn parse_integer_value(num: &AstElement<AstIntegerValue>) -> (r: Result<BuiltinValue, Error>)
    ensures
        r matches Ok(BuiltinValue::Integer(i)) && i@ == integer_literal_value(num.element),
{
    Ok(BuiltinValue::Integer(BigInteger::new(num.element.negative, copy_vec(&num.element.magnitude))))
}

/// The mantissa of a decimal literal: its digits read as one integer, the sign applied.
pub open spec fn decimal_mantissa(d: AstDecimalValue) -> int {
    let m = le_value(d.whole@) * vstd::arithmetic::power::pow(10, d.fraction@.len()) + crate::time::digits_value(
        d.fraction@,
    );
    if d.negative {
        -m
    } else {
        m
    }
}

/// Rewrites `whole.fraction` as `mantissa * 10^exponent`, the exponent being minus the
/// number of fraction digits.
pub fn parse_decimal_value(dec: &AstElement<AstDecimalValue>) -> (r: Result<BuiltinValue, Error>)
    ensures
        r is Ok <==> crate::time::all_digits(dec.element.fraction@) && dec.element.fraction@.len()
            <= i32::MAX,
        r matches Ok(v) ==> v matches BuiltinValue::RealLiteral(rl) && rl.mantissa@ == decimal_mantissa(
            dec.element,
        ) && rl.exponent@ == -dec.element.fraction@.len(),
        r matches Err(e) ==> e.is_ast(),
{
    let d = &dec.element;
    let k = d.fraction.len();
    if k > 2147483647 {
        return Err(ast_error("too many fraction digits", dec.loc));
    }
    let mut i: usize = 0;
    while i < k
        invariant
            k == d.fraction@.len(),
            *d == dec.element,
            i <= k,
            forall|j: int| 0 <= j < i ==> crate::time::is_digit(#[trigger] d.fraction@[j]),
        decreases k - i,
    {
        if !(48 <= d.fraction[i] && d.fraction[i] <= 57) {
            assert(!crate::time::is_digit(d.fraction@[i as int]));
            return Err(ast_error("invalid digit in the fraction", dec.loc));
        }
        i = i + 1;
    }
    let whole = BigInteger::new(false, copy_vec(&d.whole));
    let ten = big_from_i64(10);
    let scale = big_pow(&ten, k as u32);
    let scaled = big_mul(&whole, &scale);
    let fraction = if k == 0 {
        BigInteger::zero()
    } else {
        proof {
            lemma_decimal_digits_radix(d.fraction@);
        }
        match big_parse_unsigned(d.fraction.as_slice(), 10) {
            Some(f) => f,
            None => {
                return Err(ast_error("invalid digit in the fraction", dec.loc));
            },
        }
    };
    let sum = big_add(&scaled, &fraction);
    let mantissa = if d.negative {
        BigInteger::new(!sum.negative, sum.magnitude)
    } else {
        sum
    };
    let exponent = big_from_i64(-(k as i64));
    Ok(BuiltinValue::RealLiteral(RealLiteral { mantissa, exponent }))
}

/// Decimal digits are digits of radix 10, with the same value.
proof fn lemma_decimal_digits_radix(s: Seq<u8>)
    requires
        crate::time::all_digits(s),
    ensures
        crate::bigint::all_radix_digits(s, 10),
        crate::bigint::radix_value(s, 10) == crate::time::digits_value(s),
    decreases s.len(),
{
    assert forall|i: int| 0 <= i < s.len() implies (#[trigger] crate::bigint::digit_value(s[i], 10)) is Some by {
        assert(crate::time::is_digit(s[i]));
    }
    if s.len() > 0 {
        let t = s.drop_last();
        assert forall|i: int| 0 <= i < t.len() implies crate::time::is_digit(#[trigger] t[i]) by {
            assert(t[i] == s[i]);
        }
        lemma_decimal_digits_radix(t);
        assert(crate::time::is_digit(s[s.len() - 1]));
    }
}


// ---------------------------------------------------------------- references

/// The identifier that a value reference names, as the module's imports resolve it.
pub fn parse_valuereference(parser: &AstParser, valref: &AstElement<String>) -> (r: Result<
    AstElement<Value>,
    Error,
>)
    ensures
        r matches Ok(v) ==> v.loc == valref.loc,
        r matches Ok(v) ==> (v.element matches Value::Reference(q) && q.name@ == valref.element@),
        index_of(parser.context.modules(), parser.module@) >= 0 ==> (r matches Ok(v) && v.element matches Value::Reference(q)
            && symbol_resolves_to(parser.context.modules()[index_of(parser.context.modules(), parser.module@)].1, valref.element@, q)),
        index_of(parser.context.modules(), parser.module@) < 0 ==> r is Err,
        r matches Err(e) ==> e.is_ast(),
{
    match parser.context.lookup_module(&parser.module) {
        Some(header) => {
            let q = header.resolve_symbol(&valref.element);
            Ok(AstElement::new(Value::Reference(q), valref.loc))
        },
        None => Err(ast_error("the module being lowered is not registered", valref.loc)),
    }
}

fn special_real_ident(special: AstSpecialRealValue) -> (r: QualifiedIdentifier)
    ensures
        r.module.name@ == "Real"@,
        r.module.oid is None,
        r.name@ == special_real_name(special),
{
    let module = ModuleIdentifier::with_name(String::from_str("Real"));
    let name = match special {
        AstSpecialRealValue::PlusInfinity => String::from_str("plus-infinity"),
        AstSpecialRealValue::MinusInfinity => String::from_str("minus-infinity"),
        AstSpecialRealValue::NotANumber => String::from_str("not-a-number"),
    };
    QualifiedIdentifier::new(module, name)
}

/// The arc that an object identifier component gives by number, if it gives one.
pub open spec fn numeric_arc(c: AstObjectIdComponent) -> Option<u64> {
    match c {
        AstObjectIdComponent::Number(n) => Some(n),
        AstObjectIdComponent::NamedNumber(_, n) => Some(n),
        AstObjectIdComponent::Name(_) => None,
    }
}

/// Lowers the arcs of an OBJECT IDENTIFIER or RELATIVE-OID value. A bare name must
/// refer to a registered object identifier value, whose arcs it stands for.
pub fn parse_object_identifier(
    parser: &AstParser,
    object_id: &AstElement<Vec<AstElement<AstObjectIdComponent>>>,
) -> (r: Result<Vec<u64>, Error>)
    ensures
        (forall|i: int| 0 <= i < object_id.element@.len() ==> (#[trigger] numeric_arc(object_id.element@[i].element)) is Some)
            ==> (r matches Ok(arcs) && arcs@ == object_id.element@.map_values(
            |c: AstElement<AstObjectIdComponent>| numeric_arc(c.element).unwrap(),
        )),
        r matches Err(e) ==> e.is_ast(),
{
    let comps = &object_id.element;
    let mut arcs: Vec<u64> = Vec::new();
    let ghost all_numeric = forall|i: int| 0 <= i < object_id.element@.len() ==> (#[trigger] numeric_arc(object_id.element@[i].element)) is Some;
    let mut i: usize = 0;
    while i < comps.len()
        invariant
            *comps == object_id.element,
            i <= comps@.len(),
            all_numeric == (forall|k: int| 0 <= k < object_id.element@.len() ==> (#[trigger] numeric_arc(object_id.element@[k].element)) is Some),
            all_numeric ==> arcs@ == object_id.element@.subrange(0, i as int).map_values(
                |c: AstElement<AstObjectIdComponent>| numeric_arc(c.element).unwrap(),
            ),
        decreases comps@.len() - i,
    {
        match &comps[i].element {
            AstObjectIdComponent::Number(n) => arcs.push(*n),
            AstObjectIdComponent::NamedNumber(_, n) => arcs.push(*n),
            AstObjectIdComponent::Name(name) => {
                proof {
                    if all_numeric {
                        assert(numeric_arc(object_id.element@[i as int].element) is Some);
                    }
                }
                let reference = parse_valuereference(parser, name)?;
                let ident = match &reference.element {
                    Value::Reference(q) => q,
                    Value::BuiltinValue(_) => {
                        return Err(ast_error("object identifier component must name a value", name.loc));
                    },
                };
                match parser.context.lookup_value(ident) {
                    Some(decl) => match &decl.value.element {
                        Value::BuiltinValue(BuiltinValue::ObjectIdentifier(prefix))
                        | Value::BuiltinValue(BuiltinValue::RelativeOid(prefix)) => {
                            let mut j: usize = 0;
                            while j < prefix.len()
                                invariant
                                    j <= prefix@.len(),
                                decreases prefix@.len() - j,
                            {
                                arcs.push(prefix[j]);
                                j = j + 1;
                            }
                        },
                        _ => {
                            return Err(
                                ast_error("object identifier component names a value of another type", name.loc),
                            );
                        },
                    },
                    None => {
                        return Err(ast_error("object identifier component names an undefined value", name.loc));
                    },
                }
            },
        }
        proof {
            if all_numeric {
                assert(arcs@ =~= object_id.element@.subrange(0, i + 1).map_values(
                    |c: AstElement<AstObjectIdComponent>| numeric_arc(c.element).unwrap(),
                ));
            }
        }
        i = i + 1;
    }
    proof {
        if all_numeric {
            assert(object_id.element@.subrange(0, i as int) =~= object_id.element@);
        }
    }
    Ok(arcs)
}


// ---------------------------------------------------------------- structures

/// The value lists a component of the given name.
pub open spec fn supplies(vs: Seq<AstElement<AstNamedValue>>, name: Seq<char>) -> bool {
    exists|j: int| 0 <= j < vs.len() && (#[trigger] vs[j]).element.name.element@ == name
}

/// The structure type declares a component of the given name.
pub open spec fn declares(cs: Seq<StructureComponent>, name: Seq<char>) -> bool {
    exists|i: int| 0 <= i < cs.len() && (#[trigger] cs[i]).name.element@ == name
}

/// The value lists a component that the type does not declare.
pub open spec fn has_unknown_component(cs: Seq<StructureComponent>, vs: Seq<AstElement<AstNamedValue>>) -> bool {
    exists|j: int| 0 <= j < vs.len() && !declares(cs, (#[trigger] vs[j]).element.name.element@)
}

/// The value leaves out a component that is neither OPTIONAL nor has a DEFAULT.
pub open spec fn misses_required(cs: Seq<StructureComponent>, vs: Seq<AstElement<AstNamedValue>>) -> bool {
    exists|i: int|
        0 <= i < cs.len() && !supplies(vs, (#[trigger] cs[i]).name.element@) && cs[i].default_value is None
            && !cs[i].optional
}

/// A component that the lowered value holds: given in the value, or defaulted.
pub open spec fn kept(c: StructureComponent, vs: Seq<AstElement<AstNamedValue>>) -> bool {
    supplies(vs, c.name.element@) || c.default_value is Some
}

/// Names of the components that the lowered value holds, in the type's order.
pub open spec fn kept_names(cs: Seq<StructureComponent>, vs: Seq<AstElement<AstNamedValue>>) -> Seq<Seq<char>>
    decreases cs.len(),
{
    if cs.len() == 0 {
        Seq::empty()
    } else {
        let rest = kept_names(cs.drop_last(), vs);
        if kept(cs.last(), vs) {
            rest.push(cs.last().name.element@)
        } else {
            rest
        }
    }
}

/// The components of a lowered SEQUENCE or SET value.
pub open spec fn structure_components(v: BuiltinValue) -> Option<Seq<StructureValueComponent>> {
    match v {
        BuiltinValue::Sequence(sv) => Some(sv.components@),
        BuiltinValue::SetValue(sv) => Some(sv.components@),
        _ => None,
    }
}

pub open spec fn component_names(cs: Seq<StructureValueComponent>) -> Seq<Seq<char>> {
    cs.map_values(|c: StructureValueComponent| c.name.element@)
}

/// The lowered structure value lists the kept components in the type's order, each
/// marked as defaulted exactly when the value left it out.
pub open spec fn lowered_structure(
    cs: Seq<StructureComponent>,
    vs: Seq<AstElement<AstNamedValue>>,
    out: Seq<StructureValueComponent>,
) -> bool {
    &&& component_names(out) == kept_names(cs, vs)
    &&& forall|i: int| 0 <= i < out.len() ==> (#[trigger] out[i]).is_default == !supplies(vs, out[i].name.element@)
}

fn find_named_value(vs: &Vec<AstElement<AstNamedValue>>, name: &String) -> (r: Option<usize>)
    ensures
        r matches Some(j) ==> j < vs@.len() && vs@[j as int].element.name.element@ == name@,
        r is None ==> !supplies(vs@, name@),
{
    let mut j: usize = 0;
    while j < vs.len()
        invariant
            j <= vs@.len(),
            forall|k: int| 0 <= k < j ==> (#[trigger] vs@[k]).element.name.element@ != name@,
        decreases vs@.len() - j,
    {
        if vs[j].element.name.element == *name {
            return Some(j);
        }
        j = j + 1;
    }
    None
}

fn declares_exec(cs: &Vec<StructureComponent>, name: &String) -> (r: bool)
    ensures
        r == declares(cs@, name@),
{
    let mut i: usize = 0;
    while i < cs.len()
        invariant
            i <= cs@.len(),
            forall|k: int| 0 <= k < i ==> (#[trigger] cs@[k]).name.element@ != name@,
        decreases cs@.len() - i,
    {
        if cs[i].name.element == *name {
            return true;
        }
        i = i + 1;
    }
    false
}

/// Lowers a SEQUENCE or SET value against its structure type: every listed component
/// must be declared, every declared component that is neither OPTIONAL nor has a
/// DEFAULT must be listed, and the result follows the type's order.
pub fn parse_structure_value(
    parser: &AstParser,
    struct_val: &AstElement<Vec<AstElement<AstNamedValue>>>,
    target_type: &ResolvedType,
) -> (r: Result<BuiltinValue, Error>)
    ensures
        structure_lowered(*target_type.ty, struct_val.element@, match r {
            Ok(v) => Ok(v),
            Err(_) => Err(()),
        }),
        target_type.ty matches BuiltinType::Structure(st) ==> (has_unknown_component(st.components@, struct_val.element@)
            ==> (r matches Err(e) && exists|j: int|
            #![trigger struct_val.element@[j]]
            0 <= j < struct_val.element@.len() && !declares(st.components@, struct_val.element@[j].element.name.element@)
                && e.loc == struct_val.element@[j].element.name.loc && forall|k: int|
                0 <= k < j ==> declares(st.components@, (#[trigger] struct_val.element@[k]).element.name.element@))),
        r matches Err(e) ==> e.is_ast(),
    decreases struct_val,
{
    let st = match target_type.ty {
        BuiltinType::Structure(st) => st,
        _ => {
            return Err(ast_error("a SEQUENCE or SET value cannot be assigned to this type", struct_val.loc));
        },
    };
    let vs = &struct_val.element;
    let cs = &st.components;
    let mut j: usize = 0;
    while j < vs.len()
        invariant
            *target_type.ty == BuiltinType::Structure(*st),
            *vs == struct_val.element,
            *cs == st.components,
            j <= vs@.len(),
            forall|k: int| 0 <= k < j ==> declares(cs@, (#[trigger] vs@[k]).element.name.element@),
        decreases vs@.len() - j,
    {
        if !declares_exec(cs, &vs[j].element.name.element) {
            assert(has_unknown_component(cs@, vs@));
            return Err(ast_error("no such component in the structure type", vs[j].element.name.loc));
        }
        j = j + 1;
    }
    if st.ty != TagType::Sequence && st.ty != TagType::SetType {
        return Err(ast_error("structure type is neither SEQUENCE nor SET", struct_val.loc));
    }
    let mut components: Vec<StructureValueComponent> = Vec::new();
    let mut i: usize = 0;
    while i < cs.len()
        invariant
            *target_type.ty == BuiltinType::Structure(*st),
            st.ty == TagType::Sequence || st.ty == TagType::SetType,
            *vs == struct_val.element,
            *cs == st.components,
            i <= cs@.len(),
            !has_unknown_component(cs@, vs@),
            forall|k: int| 0 <= k < i ==> !(!supplies(vs@, (#[trigger] cs@[k]).name.element@) && cs@[k].default_value is None
                && !cs@[k].optional),
            component_names(components@) == kept_names(cs@.subrange(0, i as int), vs@),
            forall|k: int| 0 <= k < components@.len() ==> (#[trigger] components@[k]).is_default == !supplies(vs@, components@[k].name.element@),
            forall|k: int| #![trigger components@[k]] 0 <= k < components@.len() ==> component_lowered(cs@, vs@, components@[k]),
        decreases cs@.len() - i,
    {
        let ty_component = &cs[i];
        let ghost before = components@;
        proof {
            assert(cs@.subrange(0, i + 1).drop_last() =~= cs@.subrange(0, i as int));
        }
        match find_named_value(vs, &ty_component.name.element) {
            Some(j) => {
                let val_component = &vs[j];
                let component_type = match resolve(parser.context, &ty_component.component_type, val_component.loc) {
                    Ok(t) => t,
                    Err(e) => {
                        assert(cs@[i as int] == *ty_component && vs@[j as int] == *val_component);
                        return Err(e);
                    },
                };
                proof {
                    broadcast use vstd::std_specs::vec::axiom_vec_index_decreases;

                    assert(decreases_to!(struct_val.element => struct_val.element[j as int]));
                }
                let value = match parse_value(parser, &val_component.element.value, &component_type) {
                    Ok(v) => v,
                    Err(e) => {
                        assert(cs@[i as int] == *ty_component && vs@[j as int] == *val_component);
                        return Err(e);
                    },
                };
                proof {
                    assert(cs@[i as int] == *ty_component && vs@[j as int] == *val_component);
                    if ty_component.component_type.ty is BuiltinType {
                        assert(constraint_of(component_type.constraint) == ty_component.component_type.constraint);
                    }
                    assert(nested_lowered(vs@[j as int].element.value, *cs@[i as int].component_type, value));
                }
                components.push(
                    StructureValueComponent {
                        name: AstElement::new(ty_component.name.element.clone(), ty_component.name.loc),
                        value,
                        is_default: false,
                    },
                );
                proof {
                    let c = components@[components@.len() - 1];
                    assert(c.value == value && c.name.element@ == ty_component.name.element@ && !c.is_default);
                    assert(component_lowered(cs@, vs@, c));
                }
                proof {
                    assert(supplies(vs@, ty_component.name.element@));
                    assert(component_names(components@) =~= component_names(before).push(ty_component.name.element@));
                }
            },
            None => {
                match &ty_component.default_value {
                    Some(default_value) => {
                        let copied = copy_value(default_value);
                        components.push(
                            StructureValueComponent {
                                name: AstElement::new(ty_component.name.element.clone(), ty_component.name.loc),
                                value: copied,
                                is_default: true,
                            },
                        );
                        proof {
                            assert(cs@[i as int] == *ty_component);
                            let c = components@[components@.len() - 1];
                            assert(c.value == copied && c.name.element@ == ty_component.name.element@ && c.is_default);
                            assert(component_lowered(cs@, vs@, c));
                            assert(component_names(components@) =~= component_names(before).push(ty_component.name.element@));
                        }
                    },
                    None => {
                        if !ty_component.optional {
                            assert(cs@[i as int] == *ty_component);
                            return Err(ast_error("structure value is missing a component", struct_val.loc));
                        }
                    },
                }
            },
        }
        i = i + 1;
    }
    proof {
        assert(cs@.subrange(0, cs@.len() as int) =~= cs@);
        assert(!misses_required(cs@, vs@));
    }
    let value = StructureValue { components };
    if st.ty == TagType::Sequence {
        Ok(BuiltinValue::Sequence(value))
    } else {
        Ok(BuiltinValue::SetValue(value))
    }
}


// ---------------------------------------------------------------- values

/// Position of the first enumeration item with the given name, or -1.
pub open spec fn enum_index(items: Seq<EnumerationItem>, name: Seq<char>) -> int
    decreases items.len(),
{
    if items.len() == 0 {
        -1
    } else if items[0].name.element@ == name {
        0
    } else {
        let r = enum_index(items.drop_first(), name);
        if r < 0 {
            -1
        } else {
            r + 1
        }
    }
}

/// Position of the first CHOICE alternative with the given name, or -1.
pub open spec fn alternative_index(alts: Seq<crate::types::ChoiceAlternative>, name: Seq<char>) -> int
    decreases alts.len(),
{
    if alts.len() == 0 {
        -1
    } else if alts[0].name.element@ == name {
        0
    } else {
        let r = alternative_index(alts.drop_first(), name);
        if r < 0 {
            -1
        } else {
            r + 1
        }
    }
}

/// Some element of the constraint is a contents constraint.
pub open spec fn has_contents(c: crate::types::Constraint) -> bool {
    exists|i: int, j: int|
        0 <= i < c.0@.len() && 0 <= j < c.0@[i]@.len() && (#[trigger] c.0@[i]@[j]).element is Contents
}

fn find_enum_item(items: &Vec<EnumerationItem>, name: &String) -> (r: Option<usize>)
    ensures
        r matches Some(i) ==> i == enum_index(items@, name@) && i < items@.len(),
        r is None ==> enum_index(items@, name@) < 0,
{
    let mut i: usize = 0;
    while i < items.len()
        invariant
            i <= items@.len(),
            forall|k: int| 0 <= k < i ==> (#[trigger] items@[k]).name.element@ != name@,
        decreases items@.len() - i,
    {
        if items[i].name.element == *name {
            proof {
                lemma_enum_index_first(items@, name@, i as int);
            }
            return Some(i);
        }
        i = i + 1;
    }
    proof {
        lemma_enum_index_none(items@, name@);
    }
    None
}

proof fn lemma_enum_index_first(items: Seq<EnumerationItem>, name: Seq<char>, i: int)
    requires
        0 <= i < items.len(),
        items[i].name.element@ == name,
        forall|k: int| 0 <= k < i ==> (#[trigger] items[k]).name.element@ != name,
    ensures
        enum_index(items, name) == i,
    decreases i,
{
    if i > 0 {
        let t = items.drop_first();
        assert forall|k: int| 0 <= k < i - 1 implies (#[trigger] t[k]).name.element@ != name by {
            assert(t[k] == items[k + 1]);
        }
        lemma_enum_index_first(t, name, i - 1);
    }
}

proof fn lemma_enum_index_none(items: Seq<EnumerationItem>, name: Seq<char>)
    requires
        forall|k: int| 0 <= k < items.len() ==> (#[trigger] items[k]).name.element@ != name,
    ensures
        enum_index(items, name) < 0,
    decreases items.len(),
{
    if items.len() > 0 {
        let t = items.drop_first();
        assert forall|k: int| 0 <= k < t.len() implies (#[trigger] t[k]).name.element@ != name by {
            assert(t[k] == items[k + 1]);
        }
        lemma_enum_index_none(t, name);
    }
}

fn find_alternative(alts: &Vec<crate::types::ChoiceAlternative>, name: &String) -> (r: Option<usize>)
    ensures
        r matches Some(i) ==> i == alternative_index(alts@, name@) && i < alts@.len(),
        r is None ==> alternative_index(alts@, name@) < 0,
{
    let mut i: usize = 0;
    while i < alts.len()
        invariant
            i <= alts@.len(),
            forall|k: int| 0 <= k < i ==> (#[trigger] alts@[k]).name.element@ != name@,
        decreases alts@.len() - i,
    {
        if alts[i].name.element == *name {
            proof {
                lemma_alternative_index_first(alts@, name@, i as int);
            }
            return Some(i);
        }
        i = i + 1;
    }
    proof {
        lemma_alternative_index_none(alts@, name@);
    }
    None
}

proof fn lemma_alternative_index_first(alts: Seq<crate::types::ChoiceAlternative>, name: Seq<char>, i: int)
    requires
        0 <= i < alts.len(),
        alts[i].name.element@ == name,
        forall|k: int| 0 <= k < i ==> (#[trigger] alts[k]).name.element@ != name,
    ensures
        alternative_index(alts, name) == i,
    decreases i,
{
    if i > 0 {
        let t = alts.drop_first();
        assert forall|k: int| 0 <= k < i - 1 implies (#[trigger] t[k]).name.element@ != name by {
            assert(t[k] == alts[k + 1]);
        }
        lemma_alternative_index_first(t, name, i - 1);
    }
}

proof fn lemma_alternative_index_none(alts: Seq<crate::types::ChoiceAlternative>, name: Seq<char>)
    requires
        forall|k: int| 0 <= k < alts.len() ==> (#[trigger] alts[k]).name.element@ != name,
    ensures
        alternative_index(alts, name) < 0,
    decreases alts.len(),
{
    if alts.len() > 0 {
        let t = alts.drop_first();
        assert forall|k: int| 0 <= k < t.len() implies (#[trigger] t[k]).name.element@ != name by {
            assert(t[k] == alts[k + 1]);
        }
        lemma_alternative_index_none(t, name);
    }
}

fn find_contents(c: &crate::types::Constraint) -> (r: Option<&crate::types::ContentsConstraint>)
    ensures
        r is None <==> !has_contents(*c),
        r matches Some(k) ==> exists|i: int, j: int|
            #![trigger c.0@[i]@[j]]
            0 <= i < c.0@.len() && 0 <= j < c.0@[i]@.len() && c.0@[i]@[j].element == crate::types::SubtypeElement::Contents(*k),
{
    let mut i: usize = 0;
    while i < c.0.len()
        invariant
            i <= c.0@.len(),
            forall|a: int, b: int|
                0 <= a < i && 0 <= b < c.0@[a]@.len() ==> !((#[trigger] c.0@[a]@[b]).element is Contents),
        decreases c.0@.len() - i,
    {
        let set = &c.0[i];
        let mut j: usize = 0;
        while j < set.len()
            invariant
                i < c.0@.len(),
                *set == c.0@[i as int],
                j <= set@.len(),
                forall|b: int| 0 <= b < j ==> !((#[trigger] set@[b]).element is Contents),
                forall|a: int, b: int|
                    0 <= a < i && 0 <= b < c.0@[a]@.len() ==> !((#[trigger] c.0@[a]@[b]).element is Contents),
            decreases set@.len() - j,
        {
            match &set[j].element {
                SubtypeElement::Contents(contents) => {
                    assert(c.0@[i as int]@[j as int].element is Contents);
                    assert(c.0@[i as int]@[j as int].element == crate::types::SubtypeElement::Contents(*contents));
                    return Some(contents);
                },
                _ => {},
            }
            j = j + 1;
        }
        i = i + 1;
    }
    None
}

/// Whether every character of the literal is a digit of the radix.
fn all_radix_digits_exec(s: &str, radix: u32) -> (r: bool)
    ensures
        r == all_radix_digits(s@, radix as nat),
{
    let n = s.unicode_len();
    let mut i: usize = 0;
    while i < n
        invariant
            n == s@.len(),
            i <= n,
            forall|j: int| 0 <= j < i ==> is_radix_digit(#[trigger] s@[j], radix as nat),
        decreases n - i,
    {
        if !is_radix_digit_exec(s.get_char(i), radix) {
            return false;
        }
        i = i + 1;
    }
    true
}

/// The name is an item of the ENUMERATED type `t`.
pub open spec fn enum_item_named(t: BuiltinType, name: Seq<char>) -> bool {
    t matches BuiltinType::Enumerated(items) && 0 <= enum_index(items@, name) < items@.len()
}

/// What a value reference that names no enumeration item gives: the identifier it
/// stands for in the module being lowered, once that module is registered.
pub open spec fn reference_lowered(
    modules: Seq<(ModuleIdentifier, crate::module::ModuleHeader)>,
    module: (Seq<char>, Option<Seq<u64>>),
    name: Seq<char>,
    r: Result<AstElement<Value>, Error>,
) -> bool {
    let i = index_of(modules, module);
    &&& i >= 0 ==> (r matches Ok(v) && v.element matches Value::Reference(q) && symbol_resolves_to(modules[i].1, name, q))
    &&& i < 0 ==> r is Err
}

/// The constraint a resolved type carries, as a value.
pub open spec fn constraint_of(c: Option<&crate::types::Constraint>) -> Option<crate::types::Constraint> {
    match c {
        Some(x) => Some(*x),
        None => None,
    }
}

/// A value whose lowering cannot fail: NULL, a boolean or a number.
pub open spec fn always_lowers(v: AstValue) -> bool {
    v matches AstValue::BuiltinValue(b) && (b.element is Null || b.element is BooleanValue
        || b.element is IntegerValue)
}

/// The builtin value in a lowering result, or `Err(())`.
pub open spec fn builtin_result(r: Result<AstElement<Value>, Error>) -> Result<BuiltinValue, ()> {
    match r {
        Ok(v) => match v.element {
            Value::BuiltinValue(bv) => Ok(bv),
            Value::Reference(_) => Err(()),
        },
        Err(_) => Err(()),
    }
}

/// The name of the catalog constant that a special REAL value stands for.
pub open spec fn special_real_name(k: AstSpecialRealValue) -> Seq<char> {
    match k {
        AstSpecialRealValue::PlusInfinity => "plus-infinity"@,
        AstSpecialRealValue::MinusInfinity => "minus-infinity"@,
        AstSpecialRealValue::NotANumber => "not-a-number"@,
    }
}

/// `out` is the lowering of the source value `v` against the type `t`, as far as the
/// contracts state it: it keeps the source location and, for a builtin `t`, follows
/// `lowered_builtin` or `lowered_reference`.
pub open spec fn nested_lowered(v: AstElement<AstValue>, t: crate::types::TaggedType, out: AstElement<Value>) -> bool
    decreases v, 0nat,
{
    &&& out.loc == v.loc
    &&& t.ty matches crate::types::UntaggedType::BuiltinType(bt) ==> match v.element {
        AstValue::BuiltinValue(b) => lowered_builtin(b.element, bt, t.constraint, Ok(out)),
        AstValue::ValueReference(name) => lowered_reference(name.element@, bt, Ok(out)),
    }
}

/// Every supplied component lowers without fail against its declared type.
pub open spec fn supplied_values_lower(cs: Seq<StructureComponent>, vs: Seq<AstElement<AstNamedValue>>) -> bool
    decreases vs,
{
    forall|i: int, j: int|
        #![trigger cs[i], vs[j]]
        0 <= i < cs.len() && 0 <= j < vs.len() && cs[i].name.element@ == vs[j].element.name.element@
            ==> value_lowers(vs[j].element.value, *cs[i].component_type)
}

/// The source value lowers without fail against `t`: `t` is builtin, and the value is a
/// literal that `lowers` accepts for it.
pub open spec fn value_lowers(v: AstElement<AstValue>, t: crate::types::TaggedType) -> bool
    decreases v, 0nat,
{
    match t.ty {
        crate::types::UntaggedType::BuiltinType(bt) => match v.element {
            AstValue::BuiltinValue(b) => lowers(b.element, bt, t.constraint),
            AstValue::ValueReference(_) => false,
        },
        _ => false,
    }
}

/// A string literal is accepted by the type `t`.
pub open spec fn string_lowers(lit: AstStringLiteral, t: BuiltinType) -> bool {
    let radix: nat = if lit.kind == StringKind::B { 2 } else { 16 };
    let bytes = encode_utf8(lit.data@);
    match t {
        BuiltinType::OctetString => lit.kind != StringKind::C && all_radix_digits(lit.data@, radix),
        BuiltinType::CharacterString(tag) => lit.kind == StringKind::C && is_string_tag(tag) && all_chars_allowed(tag, lit.data@),
        BuiltinType::UTCTime => lit.kind == StringKind::C && is_utc_time(bytes),
        BuiltinType::Date => lit.kind == StringKind::C && is_date(bytes),
        BuiltinType::TimeOfDay => lit.kind == StringKind::C && is_time_of_day(bytes),
        BuiltinType::DateTime => lit.kind == StringKind::C && is_date_time(bytes),
        BuiltinType::BitString(_) => bytes.len() == 0 || (lit.kind != StringKind::C && crate::bigint::all_radix_digits(bytes, radix)),
        BuiltinType::Time | BuiltinType::GeneralizedTime | BuiltinType::Duration => true,
        _ => false,
    }
}

/// The constraint has a contents constraint, and the value lowers without fail against
/// every contained type it names.
pub open spec fn contents_lower(inner: AstElement<AstValue>, c: Option<crate::types::Constraint>) -> bool
    decreases inner, 1nat,
{
    match c {
        Some(cc) => has_contents(cc) && forall|i: int, j: int|
            #![trigger cc.0@[i]@[j]]
            0 <= i < cc.0@.len() && 0 <= j < cc.0@[i]@.len() ==> match cc.0@[i]@[j].element {
                crate::types::SubtypeElement::Contents(k) => value_lowers(inner, k.ty),
                _ => true,
            },
        None => false,
    }
}

/// `out` is the lowering of `inner` against the type of one of the contents constraints
/// of `c`.
pub open spec fn contained_lowered(inner: AstElement<AstValue>, c: Option<crate::types::Constraint>, out: AstElement<Value>) -> bool
    decreases inner, 1nat,
{
    match c {
        Some(cc) => exists|i: int, j: int|
            #![trigger cc.0@[i]@[j]]
            0 <= i < cc.0@.len() && 0 <= j < cc.0@[i]@.len() && match cc.0@[i]@[j].element {
                crate::types::SubtypeElement::Contents(k) => nested_lowered(inner, k.ty, out),
                _ => false,
            },
        None => false,
    }
}

/// A literal that lowers against the type `t` with constraint `c` without fail, at any
/// depth; value references and CONTAINING values, which depend on the registry, are left
/// out.
pub open spec fn lowers(b: AstBuiltinValue, t: BuiltinType, c: Option<crate::types::Constraint>) -> bool
    decreases b,
{
    match b {
        AstBuiltinValue::Null => true,
        AstBuiltinValue::BooleanValue(_) => true,
        AstBuiltinValue::IntegerValue(_) => true,
        AstBuiltinValue::SpecialRealValue(_) => true,
        AstBuiltinValue::DecimalValue(d) => crate::time::all_digits(d.element.fraction@) && d.element.fraction@.len() <= i32::MAX,
        AstBuiltinValue::StringLiteral(lit) => string_lowers(lit.element, t),
        AstBuiltinValue::StructureValue(sv) => match t {
            BuiltinType::Structure(st) => (st.ty == TagType::Sequence || st.ty == TagType::SetType)
                && !has_unknown_component(st.components@, sv.element@) && !misses_required(st.components@, sv.element@)
                && supplied_values_lower(st.components@, sv.element@),
            _ => false,
        },
        AstBuiltinValue::ChoiceValue(cv) => match t {
            BuiltinType::Choice(ch) => {
                let i = alternative_index(ch.alternatives@, cv.element.alternative.element@);
                0 <= i < ch.alternatives@.len() && value_lowers(*cv.element.value, *ch.alternatives@[i].alternative_type)
            },
            _ => false,
        },
        AstBuiltinValue::StructureOfValue(elements) => match t {
            BuiltinType::StructureOf(so) => so.component_type.ty is BuiltinType && forall|k: int|
                0 <= k < elements.element@.len() ==> value_lowers(#[trigger] elements.element@[k], *so.component_type),
            _ => false,
        },
        AstBuiltinValue::ObjectIdentifierValue(oid) => (t is ObjectIdentifier || t is RelativeOid) && forall|i: int|
            0 <= i < oid.element@.len() ==> (#[trigger] numeric_arc(oid.element@[i].element)) is Some,
        AstBuiltinValue::ContainingValue(inner) => (t is BitString || t is OctetString) && contents_lower(*inner, c),
    }
}

/// A lowered component holds the declared default when defaulted, and otherwise the
/// lowering of the value given for it.
pub open spec fn component_lowered(
    cs: Seq<StructureComponent>,
    vs: Seq<AstElement<AstNamedValue>>,
    c: StructureValueComponent,
) -> bool
    decreases vs,
{
    exists|i: int|
        #![trigger cs[i]]
        0 <= i < cs.len() && cs[i].name.element@ == c.name.element@ && (c.is_default ==> (cs[i].default_value matches Some(
            d,
        ) && crate::values::same_element(*d, c.value))) && (!c.is_default ==> exists|j: int|
            #![trigger vs[j]]
            0 <= j < vs.len() && vs[j].element.name.element@ == c.name.element@ && nested_lowered(
                vs[j].element.value,
                *cs[i].component_type,
                c.value,
            ))
}

/// What lowering a SEQUENCE or SET value against `t` gives.
pub open spec fn structure_lowered(t: BuiltinType, vs: Seq<AstElement<AstNamedValue>>, r: Result<BuiltinValue, ()>) -> bool
    decreases vs,
{
    &&& r is Ok ==> t is Structure
    &&& t matches BuiltinType::Structure(st) ==> {
        &&& (has_unknown_component(st.components@, vs) || misses_required(st.components@, vs)) ==> r is Err
        &&& ((st.ty == TagType::Sequence || st.ty == TagType::SetType) && !has_unknown_component(st.components@, vs)
            && !misses_required(st.components@, vs) && supplied_values_lower(st.components@, vs)) ==> r is Ok
        &&& r matches Ok(bv) ==> (structure_components(bv) matches Some(out)
            && lowered_structure(st.components@, vs, out)
            && (forall|k: int|
            #![trigger out[k]]
            0 <= k < out.len() ==> exists|i: int|
                #![trigger st.components@[i]]
                0 <= i < st.components@.len() && st.components@[i].name.element@ == out[k].name.element@ && (
                out[k].is_default ==> (st.components@[i].default_value matches Some(d) && crate::values::same_element(
                    *d,
                    out[k].value,
                ))) && (!out[k].is_default ==> exists|j: int|
                    #![trigger vs[j]]
                    0 <= j < vs.len() && vs[j].element.name.element@ == out[k].name.element@ && nested_lowered(
                        vs[j].element.value,
                        *st.components@[i].component_type,
                        out[k].value,
                    )))
            && (st.ty == TagType::Sequence ==> bv is Sequence) && (st.ty == TagType::SetType ==> bv is SetValue))
    }
}

/// `x` is the lowering of the source value `v` against the builtin type `t` with
/// constraint `c`, as far as the contracts state it.
pub open spec fn value_lowered(v: AstElement<AstValue>, t: BuiltinType, c: Option<crate::types::Constraint>, x: AstElement<Value>) -> bool {
    &&& x.loc == v.loc
    &&& match v.element {
        AstValue::BuiltinValue(b) => lowered_builtin(b.element, t, c, Ok(x)),
        AstValue::ValueReference(name) => lowered_reference(name.element@, t, Ok(x)),
    }
}

/// What lowering a builtin value literal against a type `t` with constraint `c` gives.
pub open spec fn lowered_builtin(
    b: AstBuiltinValue,
    t: BuiltinType,
    c: Option<crate::types::Constraint>,
    r: Result<AstElement<Value>, Error>,
) -> bool
    decreases b,
{
    &&& lowers(b, t, c) ==> r is Ok
    &&& match b {
        AstBuiltinValue::Null => r matches Ok(v) && v.element == Value::BuiltinValue(BuiltinValue::Null),
        AstBuiltinValue::BooleanValue(x) => r matches Ok(v) && v.element == Value::BuiltinValue(BuiltinValue::Boolean(x)),
        AstBuiltinValue::IntegerValue(n) => r matches Ok(v) && v.element matches Value::BuiltinValue(BuiltinValue::Integer(i))
            && i@ == integer_literal_value(n.element),
        AstBuiltinValue::DecimalValue(d) => {
            &&& r is Ok <==> crate::time::all_digits(d.element.fraction@) && d.element.fraction@.len() <= i32::MAX
            &&& r matches Ok(v) ==> (v.element matches Value::BuiltinValue(BuiltinValue::RealLiteral(rl))
                && rl.mantissa@ == decimal_mantissa(d.element) && rl.exponent@ == -d.element.fraction@.len())
        },
        AstBuiltinValue::StringLiteral(lit) => lowered_string(lit.element, t, builtin_result(r)),
        AstBuiltinValue::StructureValue(sv) => {
            &&& r matches Ok(v) ==> v.element is BuiltinValue
            &&& structure_lowered(t, sv.element@, builtin_result(r))
        },
        AstBuiltinValue::ChoiceValue(cv) => {
            &&& r is Ok ==> t is Choice
            &&& t matches BuiltinType::Choice(ch) ==> {
                let i = alternative_index(ch.alternatives@, cv.element.alternative.element@);
                &&& i < 0 ==> r is Err
                &&& r matches Ok(v) ==> (v.element matches Value::BuiltinValue(BuiltinValue::Choice(cho))
                    && cho.alternative_index == i && cho.alternative.element@ == cv.element.alternative.element@
                    && 0 <= i < ch.alternatives@.len()
                    && nested_lowered(*cv.element.value, *ch.alternatives@[i].alternative_type, *cho.value))
            }
        },
        AstBuiltinValue::SpecialRealValue(k) => r matches Ok(v) && v.element matches Value::Reference(q)
            && q.module.name@ == "Real"@ && q.module.oid is None && q.name@ == special_real_name(k.element),
        AstBuiltinValue::ContainingValue(inner) => {
            &&& r is Ok ==> (c matches Some(cc) && has_contents(cc) && (t is BitString || t is OctetString))
            &&& c is None ==> r is Err
            &&& r matches Ok(v) ==> (v.element matches Value::BuiltinValue(BuiltinValue::Containing(cv))
                && cv.value.loc == inner.loc && (t is BitString ==> cv.container_type == TagType::BitString)
                && (t is OctetString ==> cv.container_type == TagType::OctetString)
                && contained_lowered(*inner, c, *cv.value))
        },
        AstBuiltinValue::ObjectIdentifierValue(oid) => {
            &&& r is Ok ==> (t is ObjectIdentifier || t is RelativeOid)
            &&& (forall|i: int| 0 <= i < oid.element@.len() ==> (#[trigger] numeric_arc(oid.element@[i].element)) is Some)
                ==> (t is ObjectIdentifier ==> (r matches Ok(v) && v.element matches Value::BuiltinValue(BuiltinValue::ObjectIdentifier(arcs))
                && arcs@ == oid.element@.map_values(|c: AstElement<AstObjectIdComponent>| numeric_arc(c.element).unwrap())))
            &&& (forall|i: int| 0 <= i < oid.element@.len() ==> (#[trigger] numeric_arc(oid.element@[i].element)) is Some)
                ==> (t is RelativeOid ==> (r matches Ok(v) && v.element matches Value::BuiltinValue(BuiltinValue::RelativeOid(arcs))
                && arcs@ == oid.element@.map_values(|c: AstElement<AstObjectIdComponent>| numeric_arc(c.element).unwrap())))
        },
        AstBuiltinValue::StructureOfValue(elements) => {
            &&& r is Ok ==> t is StructureOf
            &&& t matches BuiltinType::StructureOf(so) ==> {
                &&& r matches Ok(v) ==> (v.element matches Value::BuiltinValue(BuiltinValue::SequenceOf(xs))
                    && xs@.len() == elements.element@.len()
                    && forall|k: int| #![trigger xs@[k]] 0 <= k < xs@.len() ==> nested_lowered(elements.element@[k], *so.component_type, xs@[k]))
            }
        },
    }
}

/// What lowering a string literal against `t` gives; `r` is the builtin value lowered,
/// or `Err(())` for an error. TIME, GeneralizedTime and DURATION literals are kept as
/// their text.
pub open spec fn lowered_string(lit: AstStringLiteral, t: BuiltinType, r: Result<BuiltinValue, ()>) -> bool {
    let radix: nat = if lit.kind == StringKind::B { 2 } else { 16 };
    let bytes = encode_utf8(lit.data@);
    &&& string_lowers(lit, t) ==> r is Ok
    &&& match t {
        BuiltinType::OctetString => {
            &&& r is Ok <==> lit.kind != StringKind::C && all_radix_digits(lit.data@, radix)
            &&& r matches Ok(v) ==> (v matches BuiltinValue::OctetString(o) && o@ == octets_of(lit.data@, radix))
        },
        BuiltinType::CharacterString(tag) => {
            &&& r is Ok <==> lit.kind == StringKind::C && is_string_tag(tag) && all_chars_allowed(tag, lit.data@)
            &&& r matches Ok(v) ==> (v matches BuiltinValue::CharacterString(t2, s) && t2 == tag && s@ == lit.data@)
        },
        BuiltinType::UTCTime => {
            &&& r is Ok <==> lit.kind == StringKind::C && is_utc_time(bytes)
            &&& r matches Ok(v) ==> v == BuiltinValue::UTCTime(utc_time_of(bytes))
        },
        BuiltinType::Date => {
            &&& r is Ok <==> lit.kind == StringKind::C && is_date(bytes)
            &&& r matches Ok(v) ==> v == BuiltinValue::Date(date_of(bytes))
        },
        BuiltinType::TimeOfDay => {
            &&& r is Ok <==> lit.kind == StringKind::C && is_time_of_day(bytes)
            &&& r matches Ok(v) ==> v == BuiltinValue::TimeOfDay(time_of_day_of(bytes))
        },
        BuiltinType::DateTime => {
            &&& r is Ok <==> lit.kind == StringKind::C && is_date_time(bytes)
            &&& r matches Ok(v) ==> v == BuiltinValue::DateTime(date_time_of(bytes))
        },
        BuiltinType::BitString(_) => {
            &&& bytes.len() == 0 ==> (r matches Ok(v) && v matches BuiltinValue::OctetString(o) && o@.len() == 0)
            &&& r is Ok <==> (bytes.len() == 0 || (lit.kind != StringKind::C && crate::bigint::all_radix_digits(bytes, radix)))
            &&& (bytes.len() > 0 && lit.kind != StringKind::C && crate::bigint::all_radix_digits(bytes, radix)) ==> (r matches Ok(v)
                && v matches BuiltinValue::BitString(n) && n@ == crate::bigint::radix_value(bytes, radix))
            &&& r matches Ok(v) ==> (v is BitString || (v is OctetString && bytes.len() == 0))
        },
        BuiltinType::Time => r matches Ok(v) && v matches BuiltinValue::Time(x) && x@ == lit.data@,
        BuiltinType::GeneralizedTime => r matches Ok(v) && v matches BuiltinValue::GeneralizedTime(x) && x@ == lit.data@,
        BuiltinType::Duration => r matches Ok(v) && v matches BuiltinValue::Duration(x) && x@ == lit.data@,
        _ => r is Err,
    }
}

/// What lowering a value reference against `t` gives: the matching enumeration item of an
/// ENUMERATED type, else a reference to the name.
pub open spec fn lowered_reference(name: Seq<char>, t: BuiltinType, r: Result<AstElement<Value>, Error>) -> bool {
    match t {
        BuiltinType::Enumerated(items) => {
            let i = enum_index(items@, name);
            if 0 <= i < items@.len() {
                &&& (r matches Ok(v) && v.element matches Value::BuiltinValue(BuiltinValue::Enumerated(e)))
                &&& (items@[i].value matches EnumerationItemValue::Implied(n) ==> (r matches Ok(v)
                    && v.element matches Value::BuiltinValue(BuiltinValue::Enumerated(e))
                    && e.element matches Value::BuiltinValue(BuiltinValue::Integer(k)) && k@ == n))
                &&& (items@[i].value matches EnumerationItemValue::Specified(sp) ==> (r matches Ok(v)
                    && v.element matches Value::BuiltinValue(BuiltinValue::Enumerated(e))
                    && crate::values::same_element(sp, *e)))
            } else {
                r matches Ok(v) ==> (v.element matches Value::Reference(q) && q.name@ == name)
            }
        },
        _ => r matches Ok(v) ==> (v.element matches Value::Reference(q) && q.name@ == name),
    }
}

/// Lowers a value against the type it is assigned to.
pub fn parse_value(parser: &AstParser, value: &AstElement<AstValue>, target_type: &ResolvedType) -> (r: Result<
    AstElement<Value>,
    Error,
>)
    ensures
        r matches Ok(v) ==> v.loc == value.loc,
        r matches Err(e) ==> e.is_ast(),
        value.element matches AstValue::BuiltinValue(b) ==> lowered_builtin(b.element, *target_type.ty, constraint_of(target_type.constraint), r),
        value.element matches AstValue::ValueReference(name) ==> lowered_reference(name.element@, *target_type.ty, r),
        value.element matches AstValue::ValueReference(name) ==> (!enum_item_named(*target_type.ty, name.element@)
            ==> reference_lowered(parser.context.modules(), parser.module@, name.element@, r)),
    decreases value,
{
    let loc = value.loc;
    match &value.element {
        AstValue::BuiltinValue(builtin) => {
            let v: BuiltinValue = match &builtin.element {
                AstBuiltinValue::Null => BuiltinValue::Null,
                AstBuiltinValue::BooleanValue(x) => BuiltinValue::Boolean(*x),
                AstBuiltinValue::IntegerValue(num) => match parse_integer_value(num) { Ok(x) => x, Err(e) => { return Err(e); } },
                AstBuiltinValue::DecimalValue(dec) => match parse_decimal_value(dec) { Ok(x) => x, Err(e) => { return Err(e); } },
                AstBuiltinValue::StringLiteral(str_lit) => match parse_string_literal(str_lit, target_type) { Ok(x) => x, Err(e) => { return Err(e); } },
                AstBuiltinValue::ObjectIdentifierValue(object_id) => match target_type.ty {
                    BuiltinType::ObjectIdentifier => BuiltinValue::ObjectIdentifier(match parse_object_identifier(parser, object_id) { Ok(x) => x, Err(e) => { return Err(e); } }),
                    BuiltinType::RelativeOid => BuiltinValue::RelativeOid(match parse_object_identifier(parser, object_id) { Ok(x) => x, Err(e) => { return Err(e); } }),
                    _ => {
                        return Err(ast_error("OBJECT IDENTIFIER or RELATIVE-OID value cannot be assigned to this type", builtin.loc));
                    },
                },
                AstBuiltinValue::StructureValue(seq_val) => match parse_structure_value(parser, seq_val, target_type) { Ok(x) => x, Err(e) => { return Err(e); } },
                AstBuiltinValue::StructureOfValue(of_val) => {
                    let seq_of = match target_type.ty {
                        BuiltinType::StructureOf(seq_of) => seq_of,
                        _ => {
                            return Err(ast_error("SEQUENCE OF/SET OF value cannot be assigned to this type", builtin.loc));
                        },
                    };
                    let component_type = match resolve(parser.context, &seq_of.component_type, builtin.loc) { Ok(x) => x, Err(e) => { return Err(e); } };
                    proof {
                        if seq_of.component_type.ty is BuiltinType {
                            assert(constraint_of(component_type.constraint) == seq_of.component_type.constraint);
                        }
                    }
                    let ast_elements = &of_val.element;
                    let mut elements: Vec<AstElement<Value>> = Vec::new();
                    let mut i: usize = 0;
                    while i < ast_elements.len()
                        invariant
                            *ast_elements == of_val.element,
                            elements@.len() == i,
                            value.element == AstValue::BuiltinValue(*builtin),
                            builtin.element == AstBuiltinValue::StructureOfValue(*of_val),
                            *target_type.ty == BuiltinType::StructureOf(*seq_of),
                            i <= ast_elements@.len(),
                            seq_of.component_type.ty matches crate::types::UntaggedType::BuiltinType(bt) ==> (*component_type.ty == bt
                                && constraint_of(component_type.constraint) == seq_of.component_type.constraint),
                            forall|k: int| #![trigger elements@[k]] 0 <= k < i ==> nested_lowered(of_val.element@[k], *seq_of.component_type, elements@[k]),
                        decreases ast_elements@.len() - i,
                    {
                        proof {
                            broadcast use vstd::std_specs::vec::axiom_vec_index_decreases;

                            assert(decreases_to!(of_val.element => of_val.element[i as int]));
                            assert(decreases_to!(*of_val => of_val.element));
                            assert(builtin.element->StructureOfValue_0 == *of_val);
                            assert(decreases_to!(builtin.element => builtin.element->StructureOfValue_0));
                            assert(decreases_to!(*builtin => builtin.element));
                            assert(value.element->BuiltinValue_0 == *builtin);
                            assert(decreases_to!(value.element => value.element->BuiltinValue_0));
                            assert(decreases_to!(*value => value.element));
                            assert(decreases_to!(*value => of_val.element[i as int]));
                        }
                        let x = match parse_value(parser, &ast_elements[i], &component_type) {
                            Ok(x) => x,
                            Err(e) => {
                                assert(ast_elements@[i as int] == of_val.element@[i as int]);
                                return Err(e);
                            },
                        };
                        assert(nested_lowered(of_val.element@[i as int], *seq_of.component_type, x));
                        elements.push(x);
                        i = i + 1;
                    }
                    BuiltinValue::SequenceOf(elements)
                },
                AstBuiltinValue::ChoiceValue(choice) => {
                    let alternatives = match target_type.ty {
                        BuiltinType::Choice(ty) => &ty.alternatives,
                        _ => {
                            return Err(ast_error("CHOICE value cannot be assigned to this type", builtin.loc));
                        },
                    };
                    let index = match find_alternative(alternatives, &choice.element.alternative.element) {
                        Some(index) => index,
                        None => {
                            return Err(ast_error("CHOICE type does not define an alternative of this name", builtin.loc));
                        },
                    };
                    let alternative_type = match resolve(parser.context, &alternatives[index].alternative_type, builtin.loc) { Ok(x) => x, Err(e) => { return Err(e); } };
                    proof {
                        if alternatives@[index as int].alternative_type.ty is BuiltinType {
                            assert(constraint_of(alternative_type.constraint) == alternatives@[index as int].alternative_type.constraint);
                        }
                    }
                    let alternative_value = match parse_value(parser, &choice.element.value, &alternative_type) { Ok(x) => x, Err(e) => { return Err(e); } };
                    assert(nested_lowered(*choice.element.value, *alternatives@[index as int].alternative_type, alternative_value));
                    BuiltinValue::Choice(
                        ChoiceValue {
                            alternative: AstElement::new(choice.element.alternative.element.clone(), choice.element.alternative.loc),
                            alternative_index: index,
                            value: Box::new(alternative_value),
                        },
                    )
                },
                AstBuiltinValue::SpecialRealValue(special) => {
                    return Ok(AstElement::new(Value::Reference(special_real_ident(special.element)), loc));
                },
                AstBuiltinValue::ContainingValue(containing) => {
                    let contents = match target_type.constraint {
                        Some(c) => match find_contents(c) {
                            Some(contents) => contents,
                            None => {
                                return Err(ast_error("CONTAINING value can not be applied to a type that does not have a contents constraint", loc));
                            },
                        },
                        None => {
                            return Err(ast_error("CONTAINING value can not be applied to a type that does not have a contents constraint", loc));
                        },
                    };
                    let container_type = match target_type.ty {
                        BuiltinType::BitString(_) => TagType::BitString,
                        BuiltinType::OctetString => TagType::OctetString,
                        _ => {
                            return Err(ast_error("CONTAINING value can only be held by a BIT STRING or OCTET STRING", loc));
                        },
                    };
                    proof {
                        let cc = *target_type.constraint.unwrap();
                        let (i, j) = choose|i: int, j: int|
                            #![trigger cc.0@[i]@[j]]
                            0 <= i < cc.0@.len() && 0 <= j < cc.0@[i]@.len() && cc.0@[i]@[j].element == crate::types::SubtypeElement::Contents(*contents);
                        if contents_lower(**containing, constraint_of(target_type.constraint)) {
                            assert(value_lowers(**containing, contents.ty));
                        }
                    }
                    let contained_type = match resolve(parser.context, &contents.ty, loc) { Ok(x) => x, Err(e) => { return Err(e); } };
                    proof {
                        if contents.ty.ty is BuiltinType {
                            assert(constraint_of(contained_type.constraint) == contents.ty.constraint);
                        }
                    }
                    let inner = match parse_value(parser, containing, &contained_type) { Ok(x) => x, Err(e) => { return Err(e); } };
                    assert(nested_lowered(**containing, contents.ty, inner));
                    proof {
                        let cc = *target_type.constraint.unwrap();
                        let (i, j) = choose|i: int, j: int|
                            #![trigger cc.0@[i]@[j]]
                            0 <= i < cc.0@.len() && 0 <= j < cc.0@[i]@.len() && cc.0@[i]@[j].element == crate::types::SubtypeElement::Contents(*contents);
                        assert(contained_lowered(**containing, constraint_of(target_type.constraint), inner));
                    }
                    BuiltinValue::Containing(ContainingValue { container_type, value: Box::new(inner) })
                },
            };
            Ok(AstElement::new(Value::BuiltinValue(v), loc))
        },
        AstValue::ValueReference(valref) => {
            match target_type.ty {
                BuiltinType::Enumerated(items) => {
                    match find_enum_item(items, &valref.element) {
                        Some(i) => {
                            let inner = match &items[i].value {
                                EnumerationItemValue::Implied(implied) => AstElement::new(
                                    Value::BuiltinValue(BuiltinValue::Integer(big_from_i64(*implied))),
                                    loc,
                                ),
                                EnumerationItemValue::Specified(specified) => copy_value(specified),
                            };
                            return Ok(AstElement::new(Value::BuiltinValue(BuiltinValue::Enumerated(Box::new(inner))), loc));
                        },
                        None => {},
                    }
                },
                _ => {},
            }
            let reference = match parse_valuereference(parser, valref) { Ok(x) => x, Err(e) => { return Err(e); } };
            Ok(AstElement::new(reference.element, loc))
        },
    }
}

/// Lowers a string literal against its target type.
fn parse_string_literal(str_lit: &AstElement<AstStringLiteral>, target_type: &ResolvedType) -> (r: Result<BuiltinValue, Error>)
    ensures
        r matches Err(e) ==> e.is_ast(),
        lowered_string(str_lit.element, *target_type.ty, match r {
            Ok(v) => Ok(v),
            Err(_) => Err(()),
        }),
{
    let lit = &str_lit.element;
    let loc = str_lit.loc;
    match target_type.ty {
        BuiltinType::BitString(_) => {
            let bytes: &[u8] = lit.data.as_str().as_bytes();
            if bytes.len() == 0 {
                return Ok(BuiltinValue::OctetString(Vec::new()));
            }
            let radix: u32 = match lit.kind {
                StringKind::B => 2,
                StringKind::H => 16,
                StringKind::C => {
                    return Err(ast_error("cstring value cannot be assigned to BIT STRING", loc));
                },
            };
            let mut i: usize = 0;
            while i < bytes.len()
                invariant
                    i <= bytes@.len(),
                    bytes@ == encode_utf8(lit.data@),
                    *lit == str_lit.element,
                    target_type.ty is BitString,
                    bytes@.len() > 0,
                    lit.kind != StringKind::C,
                    radix == (if lit.kind == StringKind::B { 2u32 } else { 16u32 }),
                    forall|k: int| 0 <= k < i ==> (#[trigger] crate::bigint::digit_value(bytes@[k], radix as nat)) is Some,
                decreases bytes@.len() - i,
            {
                let b = bytes[i];
                let d: u32 = if 48 <= b && b <= 57 {
                    (b - 48) as u32
                } else if 97 <= b && b <= 122 {
                    (b - 97 + 10) as u32
                } else if 65 <= b && b <= 90 {
                    (b - 65 + 10) as u32
                } else {
                    99
                };
                if d >= radix {
                    assert(crate::bigint::digit_value(bytes@[i as int], radix as nat) is None);
                    return Err(ast_error("invalid digit in BIT STRING value", loc));
                }
                i = i + 1;
            }
            match big_parse_unsigned(bytes, radix) {
                Some(n) => Ok(BuiltinValue::BitString(n)),
                None => Err(ast_error("invalid digit in BIT STRING value", loc)),
            }
        },
        BuiltinType::OctetString => {
            let radix: u32 = match lit.kind {
                StringKind::B => 2,
                StringKind::H => 16,
                StringKind::C => {
                    return Err(ast_error("cstring value cannot be assigned to OCTET STRING", loc));
                },
            };
            if !all_radix_digits_exec(lit.data.as_str(), radix) {
                return Err(ast_error("invalid digit in OCTET STRING value", loc));
            }
            Ok(BuiltinValue::OctetString(parse_octet_string(lit.data.as_str(), radix)))
        },
        BuiltinType::CharacterString(tag_type) => parse_character_string(str_lit, *tag_type),
        BuiltinType::Time => Ok(BuiltinValue::Time(lit.data.clone())),
        BuiltinType::GeneralizedTime => Ok(BuiltinValue::GeneralizedTime(lit.data.clone())),
        BuiltinType::Duration => Ok(BuiltinValue::Duration(lit.data.clone())),
        BuiltinType::UTCTime => {
            if lit.kind != StringKind::C {
                return Err(ast_error("only a quoted string can be assigned to a time type", loc));
            }
            let t = UTCTime::parse(&AstElement::new(lit.data.as_str().as_bytes(), loc))?;
            Ok(BuiltinValue::UTCTime(t))
        },
        BuiltinType::Date => {
            if lit.kind != StringKind::C {
                return Err(ast_error("only a quoted string can be assigned to a time type", loc));
            }
            let d = Date::parse(&AstElement::new(lit.data.as_str().as_bytes(), loc))?;
            Ok(BuiltinValue::Date(d))
        },
        BuiltinType::TimeOfDay => {
            if lit.kind != StringKind::C {
                return Err(ast_error("only a quoted string can be assigned to a time type", loc));
            }
            let t = TimeOfDay::parse(&AstElement::new(lit.data.as_str().as_bytes(), loc))?;
            Ok(BuiltinValue::TimeOfDay(t))
        },
        BuiltinType::DateTime => {
            if lit.kind != StringKind::C {
                return Err(ast_error("only a quoted string can be assigned to a time type", loc));
            }
            let d = DateTime::parse(&AstElement::new(lit.data.as_str().as_bytes(), loc))?;
            Ok(BuiltinValue::DateTime(d))
        },
        _ => Err(ast_error("a string literal cannot be assigned to this type", loc)),
    }
}


// ---------------------------------------------------------------- assignments

/// Lowers `name Type ::= value`: the type first, then the value against it.
pub fn parse_value_assignment(parser: &AstParser, value_assignment: &AstElement<AstValueAssignment>) -> (r: Result<
    (QualifiedIdentifier, DeclaredValue),
    Error,
>)
    ensures
        r matches Ok(d) ==> d.0@ == (parser.module@, value_assignment.element.name.element@),
        r matches Ok(d) ==> d.1.ty.tag == ast_tag(value_assignment.element.ty.element),
        r matches Ok(d) ==> d.1.value.loc == value_assignment.element.value.loc,
        r matches Ok(d) ==> d.1.ty.constraint is None,
        r matches Ok(d) ==> (d.1.ty.ty matches crate::types::UntaggedType::BuiltinType(bt) ==> value_lowered(
            value_assignment.element.value,
            bt,
            None,
            d.1.value,
        )),
        r matches Ok(d) ==> crate::type_parser::type_lowered(value_assignment.element.ty.element, d.1.ty),
        ast_simple(value_assignment.element.ty.element) && value_lowers(
            value_assignment.element.value,
            crate::types::TaggedType {
                tag: ast_tag(value_assignment.element.ty.element),
                ty: crate::types::UntaggedType::BuiltinType(crate::type_parser::simple_type_of(value_assignment.element.ty.element)),
                constraint: None,
            },
        ) ==> r is Ok,
        r matches Err(e) ==> e.is_ast(),
{
    let name = value_assignment.element.name.element.clone();
    let ty = match parse_type(parser, &value_assignment.element.ty) {
        Ok(t) => t,
        Err(e) => {
            return Err(e);
        },
    };
    let val = {
        let resolved_ty = match resolve(parser.context, &ty, value_assignment.element.ty.loc) {
            Ok(rt) => rt,
            Err(e) => {
                return Err(e);
            },
        };
        match parse_value(parser, &value_assignment.element.value, &resolved_ty) {
            Ok(v) => v,
            Err(e) => {
                return Err(e);
            },
        }
    };
    Ok((QualifiedIdentifier::new(parser.module.copy(), name), DeclaredValue { value: val, ty }))
}


/// The components that a lowered value of `vs` keeps.
pub open spec fn keeps(vs: Seq<AstElement<AstNamedValue>>) -> spec_fn(StructureComponent) -> bool {
    |c: StructureComponent| kept(c, vs)
}

/// A lowered structure value lists its components in the order the type declares them,
/// whatever order the source value used: the names are the type's components that the
/// value gives or that have a DEFAULT, in declaration order, and two source values that
/// give the same components yield the same list.
pub proof fn lemma_structure_declared_order(
    cs: Seq<StructureComponent>,
    vs1: Seq<AstElement<AstNamedValue>>,
    vs2: Seq<AstElement<AstNamedValue>>,
)
    requires
        forall|name: Seq<char>| supplies(vs1, name) == supplies(vs2, name),
    ensures
        kept_names(cs, vs1) == cs.filter(keeps(vs1)).map_values(|c: StructureComponent| c.name.element@),
        kept_names(cs, vs1) == kept_names(cs, vs2),
    decreases cs.len(),
{
    if cs.len() == 0 {
        reveal_with_fuel(Seq::<StructureComponent>::filter, 1);
        assert(cs.filter(keeps(vs1)).map_values(|c: StructureComponent| c.name.element@) =~= Seq::<Seq<char>>::empty());
    } else {
        lemma_structure_declared_order(cs.drop_last(), vs1, vs2);
        reveal_with_fuel(Seq::<StructureComponent>::filter, 1);
        let f = cs.filter(keeps(vs1));
        let g = cs.drop_last().filter(keeps(vs1));
        assert(keeps(vs1)(cs.last()) == kept(cs.last(), vs1));
        if kept(cs.last(), vs1) {
            assert(f == g.push(cs.last()));
            assert(f.map_values(|c: StructureComponent| c.name.element@) =~= g.map_values(
                |c: StructureComponent| c.name.element@,
            ).push(cs.last().name.element@));
        } else {
            assert(f == g);
        }
        assert(supplies(vs1, cs.last().name.element@) == supplies(vs2, cs.last().name.element@));
    }
}

} // verus!
