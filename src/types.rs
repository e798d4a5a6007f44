//! The resolved type model: tagged types, builtin types and constraint trees.
use vstd::prelude::*;
use crate::error::AstElement;
use crate::module::QualifiedIdentifier;
use crate::values::Value;

verus! {

#[derive(Debug, Clone, Copy, PartialEq, Eq, Structural, Hash)]
pub enum Class {
    Universal,
    Application,
    ContextSpecific,
    Private,
}

#[derive(Debug, Clone, Copy, PartialEq, Eq, Structural, Hash)]
pub enum TagKind {
    Explicit,
    Implicit,
}

#[derive(Debug, Clone, Copy, PartialEq, Eq, Structural, Hash)]
pub struct Tag {
    pub class: Class,
    pub num: u16,
    pub kind: TagKind,
}

/// The universal tag of each builtin type.
#[derive(Debug, Clone, Copy, PartialEq, Eq, Structural, Hash)]
pub enum TagType {
    Boolean,
    Integer,
    BitString,
    OctetString,
    Null,
    ObjectIdentifier,
    ObjectDescriptor,
    External,
    Real,
    Enumerated,
    EmbeddedPDV,
    UTF8String,
    RelativeOid,
    Time,
    Sequence,
    SetType,
    NumericString,
    PrintableString,
    TeletexString,
    VideotexString,
    IA5String,
    UTCTime,
    GeneralizedTime,
    GraphicString,
    VisibleString,
    GeneralString,
    UniversalString,
    CharacterString,
    BMPString,
    Date,
    TimeOfDay,
    DateTime,
    Duration,
}

#[derive(Debug)]
pub struct NamedNumber {
    pub name: AstElement<String>,
    pub value: AstElement<Value>,
}

#[derive(Debug)]
pub struct IntegerType {
    pub named_values: Option<Vec<NamedNumber>>,
}

#[derive(Debug)]
pub struct BitStringType {
    pub named_bits: Option<Vec<NamedNumber>>,
}

#[derive(Debug)]
pub enum EnumerationItemValue {
    Specified(AstElement<Value>),
    Implied(i64),
}

#[derive(Debug)]
pub struct EnumerationItem {
    pub name: AstElement<String>,
    pub value: EnumerationItemValue,
}

#[derive(Debug)]
pub struct StructureComponent {
    pub name: AstElement<String>,
    pub component_type: Box<TaggedType>,
    pub optional: bool,
    pub default_value: Option<Box<AstElement<Value>>>,
}

/// A SEQUENCE or SET type.
#[derive(Debug)]
pub struct Structure {
    /// Always `Sequence` or `Set`.
    pub ty: TagType,
    pub components: Vec<StructureComponent>,
}

/// A SEQUENCE OF or SET OF type.
#[derive(Debug)]
pub struct StructureOf {
    /// Always `Sequence` or `Set`.
    pub ty: TagType,
    pub component_type: Box<TaggedType>,
}

#[derive(Debug)]
pub struct ChoiceAlternative {
    pub name: AstElement<String>,
    pub alternative_type: Box<TaggedType>,
}

#[derive(Debug)]
pub struct Choice {
    pub alternatives: Vec<ChoiceAlternative>,
}

#[derive(Debug)]
pub enum BuiltinType {
    Boolean,
    Integer(IntegerType),
    BitString(BitStringType),
    OctetString,
    Null,
    ObjectIdentifier,
    RelativeOid,
    Real,
    Enumerated(Vec<EnumerationItem>),
    Structure(Structure),
    StructureOf(StructureOf),
    Choice(Choice),
    CharacterString(TagType),
    Time,
    UTCTime,
    GeneralizedTime,
    Date,
    TimeOfDay,
    DateTime,
    Duration,
}

#[derive(Debug)]
pub enum UntaggedType {
    BuiltinType(BuiltinType),
    Reference(QualifiedIdentifier),
}

#[derive(Debug)]
pub struct TaggedType {
    pub tag: Option<Tag>,
    pub ty: UntaggedType,
    pub constraint: Option<Constraint>,
}

/// A type with every reference followed to a builtin type, borrowed from where it is
/// declared. The tag and the constraint are the outermost ones met on the way.
#[derive(Debug)]
pub struct ResolvedType<'a> {
    pub tag: Option<Tag>,
    pub ty: &'a BuiltinType,
    pub constraint: Option<&'a Constraint>,
}

/// Element sets joined by intersection; each set is a union of subtype elements.
#[derive(Debug)]
pub struct Constraint(pub Vec<Vec<AstElement<SubtypeElement>>>);

#[derive(Debug)]
pub enum RangeLowerBound {
    Min,
    Eq(AstElement<Value>),
    Gt(AstElement<Value>),
}

#[derive(Debug)]
pub enum RangeUpperBound {
    Max,
    Eq(AstElement<Value>),
    Lt(AstElement<Value>),
}

#[derive(Debug)]
pub struct ValueRange {
    pub lower: RangeLowerBound,
    pub upper: RangeUpperBound,
}

#[derive(Debug, Clone, Copy, PartialEq, Eq, Structural)]
pub enum InnerTypeConstraintsKind {
    Full,
    Partial,
}

#[derive(Debug, Clone, Copy, PartialEq, Eq, Structural)]
pub enum Presence {
    Present,
    Absent,
    Optional,
}

#[derive(Debug)]
pub struct ComponentConstraint {
    pub value: Option<Constraint>,
    pub presence: Option<Presence>,
}

#[derive(Debug)]
pub struct NamedConstraint {
    pub name: AstElement<String>,
    pub constraint: ComponentConstraint,
}

#[derive(Debug)]
pub struct InnerTypeConstraints {
    pub kind: InnerTypeConstraintsKind,
    pub components: Vec<NamedConstraint>,
}

/// The type that a BIT STRING or OCTET STRING contains.
#[derive(Debug)]
pub struct ContentsConstraint {
    pub ty: TaggedType,
}

#[derive(Debug)]
pub enum SubtypeElement {
    SingleValue(AstElement<Value>),
    ValueRange(ValueRange),
    Size(Constraint),
    InnerType(InnerTypeConstraints),
    Contents(ContentsConstraint),
}

} // verus!
