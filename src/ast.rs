//! The syntax tree that the parser hands to the analyzer.
use vstd::prelude::*;
use crate::error::AstElement;
use crate::types::{InnerTypeConstraintsKind, Tag, TagType};

verus! {

#[derive(Debug, Clone, Copy, PartialEq, Eq, Structural)]
pub enum StringKind {
    /// `'...'B`
    B,
    /// `'...'H`
    H,
    /// `"..."`
    C,
}

#[derive(Debug)]
pub struct AstStringLiteral {
    pub kind: StringKind,
    pub data: String,
}

/// A number literal: its sign and the little-endian bytes of its magnitude.
#[derive(Debug)]
pub struct AstIntegerValue {
    pub negative: bool,
    pub magnitude: Vec<u8>,
}

/// A decimal literal `whole.fraction`.
#[derive(Debug)]
pub struct AstDecimalValue {
    pub negative: bool,
    /// Little-endian bytes of the whole part.
    pub whole: Vec<u8>,
    /// The fraction digits as written, ASCII.
    pub fraction: Vec<u8>,
}

#[derive(Debug)]
pub enum AstObjectIdComponent {
    Number(u64),
    NamedNumber(AstElement<String>, u64),
    Name(AstElement<String>),
}

#[derive(Debug)]
pub struct AstNamedValue {
    pub name: AstElement<String>,
    pub value: AstElement<AstValue>,
}

#[derive(Debug)]
pub struct AstChoiceValue {
    pub alternative: AstElement<String>,
    pub value: Box<AstElement<AstValue>>,
}

#[derive(Debug, Clone, Copy, PartialEq, Eq, Structural)]
pub enum AstSpecialRealValue {
    PlusInfinity,
    MinusInfinity,
    NotANumber,
}

#[derive(Debug)]
pub enum AstBuiltinValue {
    Null,
    BooleanValue(bool),
    StringLiteral(AstElement<AstStringLiteral>),
    ObjectIdentifierValue(AstElement<Vec<AstElement<AstObjectIdComponent>>>),
    IntegerValue(AstElement<AstIntegerValue>),
    DecimalValue(AstElement<AstDecimalValue>),
    StructureValue(AstElement<Vec<AstElement<AstNamedValue>>>),
    StructureOfValue(AstElement<Vec<AstElement<AstValue>>>),
    ChoiceValue(AstElement<AstChoiceValue>),
    SpecialRealValue(AstElement<AstSpecialRealValue>),
    ContainingValue(Box<AstElement<AstValue>>),
}

#[derive(Debug)]
pub enum AstValue {
    BuiltinValue(AstElement<AstBuiltinValue>),
    ValueReference(AstElement<String>),
}

#[derive(Debug)]
pub enum AstRangeLowerBound {
    Min,
    Value(AstElement<AstValue>),
    GtValue(AstElement<AstValue>),
}

#[derive(Debug)]
pub enum AstRangeUpperBound {
    Max,
    Value(AstElement<AstValue>),
    LtValue(AstElement<AstValue>),
}

#[derive(Debug)]
pub struct AstValueRange {
    pub lower: AstElement<AstRangeLowerBound>,
    pub upper: AstElement<AstRangeUpperBound>,
}

#[derive(Debug, Clone, Copy, PartialEq, Eq, Structural)]
pub enum AstPresenceConstraint {
    PresencePresent,
    PresenceAbsent,
    PresenceOptional,
}

#[derive(Debug)]
pub enum AstComponentConstraint {
    Constraint(AstElement<AstConstraint>),
    PresenceConstraint(AstElement<AstPresenceConstraint>),
    ValuedPresenceConstraint(AstElement<AstConstraint>, AstElement<AstPresenceConstraint>),
}

#[derive(Debug)]
pub struct AstNamedConstraint {
    pub name: AstElement<String>,
    pub constraint: AstElement<AstComponentConstraint>,
}

/// `WITH COMPONENTS { ... }`, full or partial.
#[derive(Debug)]
pub struct AstInnerTypeConstraints {
    pub kind: InnerTypeConstraintsKind,
    pub components: Vec<AstElement<AstNamedConstraint>>,
}

#[derive(Debug)]
pub enum AstSubtypeElement {
    SingleValueConstraint(AstElement<AstValue>),
    ValueRangeConstraint(AstElement<AstValueRange>),
    SizeConstraint(AstElement<AstConstraint>),
    InnerTypeConstraints(AstElement<AstInnerTypeConstraints>),
    ContentsConstraint(Box<AstElement<AstType>>),
}

/// Element sets, each a list of subtype elements joined by `|`.
#[derive(Debug)]
pub struct AstConstraint(pub Vec<AstElement<Vec<AstElement<AstSubtypeElement>>>>);

#[derive(Debug)]
pub enum AstConstraintOrSizeConstraint {
    Constraint(AstElement<AstConstraint>),
    /// A bare `SIZE (...)`, holding the constraint inside the parentheses.
    SizeConstraint(AstElement<AstConstraint>),
}

#[derive(Debug)]
pub struct AstStructureComponent {
    pub name: AstElement<String>,
    pub ty: AstElement<AstType>,
    pub optional: bool,
    pub default_value: Option<AstElement<AstValue>>,
}

#[derive(Debug)]
pub struct AstStructure {
    /// `Sequence` or `SetType`.
    pub kind: TagType,
    pub components: Vec<AstElement<AstStructureComponent>>,
}

/// `SEQUENCE OF` or `SET OF`, with the constraint written between the keywords.
#[derive(Debug)]
pub struct AstStructureOf {
    /// `Sequence` or `SetType`.
    pub kind: TagType,
    pub constraint: Option<AstElement<AstConstraintOrSizeConstraint>>,
    pub ty: Box<AstElement<AstType>>,
}

#[derive(Debug)]
pub struct AstChoiceAlternative {
    pub name: AstElement<String>,
    pub ty: AstElement<AstType>,
}

#[derive(Debug)]
pub struct AstEnumerationItem {
    pub name: AstElement<String>,
    pub value: Option<AstElement<AstValue>>,
}

#[derive(Debug)]
pub enum AstBuiltinType {
    Boolean,
    Integer,
    BitString,
    OctetString,
    Null,
    ObjectIdentifier,
    RelativeOid,
    Real,
    Enumerated(Vec<AstElement<AstEnumerationItem>>),
    Structure(AstElement<AstStructure>),
    StructureOf(AstElement<AstStructureOf>),
    Choice(AstElement<Vec<AstElement<AstChoiceAlternative>>>),
    CharacterString(TagType),
    Time,
    UTCTime,
    GeneralizedTime,
    Date,
    TimeOfDay,
    DateTime,
    Duration,
}

#[derive(Debug)]
pub enum AstUntaggedType {
    BuiltinType(AstElement<AstBuiltinType>),
    TypeReference(AstElement<String>),
}

/// A type followed by an optional constraint.
#[derive(Debug)]
pub struct AstSuffixedType {
    pub ty: AstElement<AstUntaggedType>,
    pub constraint: Option<AstElement<AstConstraint>>,
}

#[derive(Debug)]
pub enum AstConstrainedType {
    Suffixed(AstElement<AstSuffixedType>),
    TypeWithConstraint(AstElement<AstStructureOf>),
}

#[derive(Debug)]
pub struct AstTaggedType {
    pub tag: Tag,
    pub ty: AstElement<AstConstrainedType>,
}

#[derive(Debug)]
pub enum AstType {
    TaggedType(AstElement<AstTaggedType>),
    ConstrainedType(AstElement<AstConstrainedType>),
}

#[derive(Debug)]
pub struct AstTypeAssignment {
    pub name: AstElement<String>,
    pub ty: AstElement<AstType>,
}

#[derive(Debug)]
pub struct AstValueAssignment {
    pub name: AstElement<String>,
    pub ty: AstElement<AstType>,
    pub value: AstElement<AstValue>,
}

} // verus!
