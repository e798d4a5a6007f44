//! The value model.
use vstd::prelude::*;
use crate::bigint::BigInteger;
use crate::error::AstElement;
use crate::module::copy_vec;
use crate::module::QualifiedIdentifier;
use crate::time::{Date, DateTime, TimeOfDay, UTCTime};
use crate::types::TagType;

verus! {

/// A REAL given as mantissa and exponent.
#[derive(Debug)]
pub struct RealLiteral {
    pub mantissa: BigInteger,
    pub exponent: BigInteger,
}

#[derive(Debug)]
pub struct StructureValueComponent {
    pub name: AstElement<String>,
    pub value: AstElement<Value>,
    /// Set when the value was taken from the component's DEFAULT.
    pub is_default: bool,
}

#[derive(Debug)]
pub struct StructureValue {
    pub components: Vec<StructureValueComponent>,
}

#[derive(Debug)]
pub struct ChoiceValue {
    pub alternative: AstElement<String>,
    /// Position of the chosen alternative in the CHOICE type.
    pub alternative_index: usize,
    pub value: Box<AstElement<Value>>,
}

/// A value carried inside a BIT STRING or OCTET STRING.
#[derive(Debug)]
pub struct ContainingValue {
    pub container_type: TagType,
    pub value: Box<AstElement<Value>>,
}

#[derive(Debug)]
pub enum BuiltinValue {
    Null,
    Boolean(bool),
    Integer(BigInteger),
    RealLiteral(RealLiteral),
    BitString(BigInteger),
    OctetString(Vec<u8>),
    ObjectIdentifier(Vec<u64>),
    RelativeOid(Vec<u64>),
    CharacterString(TagType, String),
    Sequence(StructureValue),
    SetValue(StructureValue),
    SequenceOf(Vec<AstElement<Value>>),
    Choice(ChoiceValue),
    Enumerated(Box<AstElement<Value>>),
    Containing(ContainingValue),
    /// The literal text of a TIME value.
    Time(String),
    UTCTime(UTCTime),
    /// The literal text of a GeneralizedTime value.
    GeneralizedTime(String),
    Date(Date),
    TimeOfDay(TimeOfDay),
    DateTime(DateTime),
    /// The literal text of a DURATION value.
    Duration(String),
}

#[derive(Debug)]
pub enum Value {
    Reference(QualifiedIdentifier),
    BuiltinValue(BuiltinValue),
}

broadcast use vstd::std_specs::vec::axiom_vec_index_decreases;

pub open spec fn same_big(a: BigInteger, b: BigInteger) -> bool {
    a.negative == b.negative && a.magnitude@ == b.magnitude@
}

/// Two values hold the same data: equal views of every field, at every depth.
pub open spec fn same_value(a: Value, b: Value) -> bool
    decreases a,
{
    match a {
        Value::Reference(x) => b matches Value::Reference(y) && x@ == y@,
        Value::BuiltinValue(x) => b matches Value::BuiltinValue(y) && same_builtin(x, y),
    }
}

pub open spec fn same_element(a: AstElement<Value>, b: AstElement<Value>) -> bool
    decreases a,
{
    a.loc == b.loc && same_value(a.element, b.element)
}

pub open spec fn same_structure(a: StructureValue, b: StructureValue) -> bool
    decreases a,
{
    &&& a.components@.len() == b.components@.len()
    &&& forall|k: int|
        #![trigger a.components@[k]]
        0 <= k < a.components@.len() ==> a.components@[k].name.element@ == b.components@[k].name.element@
            && a.components@[k].name.loc == b.components@[k].name.loc
            && a.components@[k].is_default == b.components@[k].is_default
            && same_element(a.components@[k].value, b.components@[k].value)
}

pub open spec fn same_builtin(a: BuiltinValue, b: BuiltinValue) -> bool
    decreases a,
{
    match a {
        BuiltinValue::Null => b is Null,
        BuiltinValue::Boolean(x) => b == BuiltinValue::Boolean(x),
        BuiltinValue::Integer(x) => b matches BuiltinValue::Integer(y) && same_big(x, y),
        BuiltinValue::RealLiteral(x) => b matches BuiltinValue::RealLiteral(y) && same_big(x.mantissa, y.mantissa)
            && same_big(x.exponent, y.exponent),
        BuiltinValue::BitString(x) => b matches BuiltinValue::BitString(y) && same_big(x, y),
        BuiltinValue::OctetString(x) => b matches BuiltinValue::OctetString(y) && x@ == y@,
        BuiltinValue::ObjectIdentifier(x) => b matches BuiltinValue::ObjectIdentifier(y) && x@ == y@,
        BuiltinValue::RelativeOid(x) => b matches BuiltinValue::RelativeOid(y) && x@ == y@,
        BuiltinValue::CharacterString(t, x) => b matches BuiltinValue::CharacterString(u, y) && t == u && x@ == y@,
        BuiltinValue::Sequence(x) => b matches BuiltinValue::Sequence(y) && same_structure(x, y),
        BuiltinValue::SetValue(x) => b matches BuiltinValue::SetValue(y) && same_structure(x, y),
        BuiltinValue::SequenceOf(xs) => b matches BuiltinValue::SequenceOf(ys) && xs@.len() == ys@.len()
            && forall|k: int| #![trigger xs@[k]] 0 <= k < xs@.len() ==> same_element(xs@[k], ys@[k]),
        BuiltinValue::Choice(x) => b matches BuiltinValue::Choice(y) && x.alternative.element@ == y.alternative.element@
            && x.alternative.loc == y.alternative.loc && x.alternative_index == y.alternative_index
            && same_element(*x.value, *y.value),
        BuiltinValue::Enumerated(x) => b matches BuiltinValue::Enumerated(y) && same_element(*x, *y),
        BuiltinValue::Containing(x) => b matches BuiltinValue::Containing(y) && x.container_type == y.container_type
            && same_element(*x.value, *y.value),
        BuiltinValue::Time(x) => b matches BuiltinValue::Time(y) && x@ == y@,
        BuiltinValue::GeneralizedTime(x) => b matches BuiltinValue::GeneralizedTime(y) && x@ == y@,
        BuiltinValue::Duration(x) => b matches BuiltinValue::Duration(y) && x@ == y@,
        BuiltinValue::UTCTime(x) => b == BuiltinValue::UTCTime(x),
        BuiltinValue::Date(x) => b == BuiltinValue::Date(x),
        BuiltinValue::TimeOfDay(x) => b == BuiltinValue::TimeOfDay(x),
        BuiltinValue::DateTime(x) => b == BuiltinValue::DateTime(x),
    }
}

/// A copy of a value and of everything it holds.
pub fn copy_value(v: &AstElement<Value>) -> (r: AstElement<Value>)
    ensures
        same_element(*v, r),
    decreases v,
{
    let element = match &v.element {
        Value::Reference(q) => Value::Reference(q.copy()),
        Value::BuiltinValue(b) => Value::BuiltinValue(copy_builtin_value(b)),
    };
    AstElement { element, loc: v.loc }
}

fn copy_structure_value(s: &StructureValue) -> (r: StructureValue)
    ensures
        same_structure(*s, r),
    decreases s,
{
    let mut components: Vec<StructureValueComponent> = Vec::new();
    let mut i: usize = 0;
    while i < s.components.len()
        invariant
            i <= s.components@.len(),
            components@.len() == i,
            forall|k: int|
                #![trigger components@[k]]
                0 <= k < i ==> s.components@[k].name.element@ == components@[k].name.element@
                    && s.components@[k].name.loc == components@[k].name.loc
                    && s.components@[k].is_default == components@[k].is_default
                    && same_element(s.components@[k].value, components@[k].value),
        decreases s.components@.len() - i,
    {
        let c = &s.components[i];
        proof {
            broadcast use vstd::std_specs::vec::axiom_vec_index_decreases;

            assert(decreases_to!(s.components => s.components[i as int]));
        }
        components.push(
            StructureValueComponent {
                name: AstElement { element: c.name.element.clone(), loc: c.name.loc },
                value: copy_value(&c.value),
                is_default: c.is_default,
            },
        );
        i = i + 1;
    }
    StructureValue { components }
}

fn copy_values(vs: &Vec<AstElement<Value>>) -> (r: Vec<AstElement<Value>>)
    ensures
        r@.len() == vs@.len(),
        forall|k: int| #![trigger vs@[k]] 0 <= k < vs@.len() ==> same_element(vs@[k], r@[k]),
    decreases vs,
{
    let mut out: Vec<AstElement<Value>> = Vec::new();
    let mut i: usize = 0;
    while i < vs.len()
        invariant
            i <= vs@.len(),
            out@.len() == i,
            forall|k: int| #![trigger vs@[k]] 0 <= k < i ==> same_element(vs@[k], out@[k]),
        decreases vs@.len() - i,
    {
        proof {
            broadcast use vstd::std_specs::vec::axiom_vec_index_decreases;

            assert(decreases_to!(*vs => vs[i as int]));
        }
        out.push(copy_value(&vs[i]));
        i = i + 1;
    }
    out
}

fn copy_builtin_value(b: &BuiltinValue) -> (r: BuiltinValue)
    ensures
        same_builtin(*b, r),
    decreases b,
{
    match b {
        BuiltinValue::Null => BuiltinValue::Null,
        BuiltinValue::Boolean(x) => BuiltinValue::Boolean(*x),
        BuiltinValue::Integer(n) => BuiltinValue::Integer(n.copy()),
        BuiltinValue::RealLiteral(r) => BuiltinValue::RealLiteral(
            RealLiteral { mantissa: r.mantissa.copy(), exponent: r.exponent.copy() },
        ),
        BuiltinValue::BitString(n) => BuiltinValue::BitString(n.copy()),
        BuiltinValue::OctetString(o) => BuiltinValue::OctetString(copy_vec(o)),
        BuiltinValue::ObjectIdentifier(o) => BuiltinValue::ObjectIdentifier(copy_vec(o)),
        BuiltinValue::RelativeOid(o) => BuiltinValue::RelativeOid(copy_vec(o)),
        BuiltinValue::CharacterString(t, s) => BuiltinValue::CharacterString(*t, s.clone()),
        BuiltinValue::Sequence(s) => BuiltinValue::Sequence(copy_structure_value(s)),
        BuiltinValue::SetValue(s) => BuiltinValue::SetValue(copy_structure_value(s)),
        BuiltinValue::SequenceOf(vs) => BuiltinValue::SequenceOf(copy_values(vs)),
        BuiltinValue::Choice(c) => BuiltinValue::Choice(
            ChoiceValue {
                alternative: AstElement { element: c.alternative.element.clone(), loc: c.alternative.loc },
                alternative_index: c.alternative_index,
                value: Box::new(copy_value(&c.value)),
            },
        ),
        BuiltinValue::Enumerated(v) => BuiltinValue::Enumerated(Box::new(copy_value(v))),
        BuiltinValue::Containing(c) => BuiltinValue::Containing(
            ContainingValue { container_type: c.container_type, value: Box::new(copy_value(&c.value)) },
        ),
        BuiltinValue::Time(s) => BuiltinValue::Time(s.clone()),
        BuiltinValue::UTCTime(t) => BuiltinValue::UTCTime(*t),
        BuiltinValue::GeneralizedTime(s) => BuiltinValue::GeneralizedTime(s.clone()),
        BuiltinValue::Date(d) => BuiltinValue::Date(*d),
        BuiltinValue::TimeOfDay(t) => BuiltinValue::TimeOfDay(*t),
        BuiltinValue::DateTime(d) => BuiltinValue::DateTime(*d),
        BuiltinValue::Duration(s) => BuiltinValue::Duration(s.clone()),
    }
}

} // verus!
