use asn1chef::ast::{
    AstBuiltinType, AstBuiltinValue, AstConstrainedType, AstConstraint, AstDecimalValue,
    AstIntegerValue, AstNamedValue, AstStringLiteral, AstSubtypeElement, AstSuffixedType, AstType,
    AstUntaggedType, AstValue, AstValueAssignment, StringKind,
};
use asn1chef::bigint::BigInteger;
use asn1chef::constraint_parser::{parse_constraint, ConstraintContext};
use asn1chef::context::{Context, DeclaredType};
use asn1chef::error::{AstElement, Loc};
use asn1chef::module::{ModuleHeader, ModuleIdentifier, QualifiedIdentifier};
use asn1chef::type_parser::AstParser;
use asn1chef::types::{
    BitStringType, BuiltinType, EnumerationItem, EnumerationItemValue, IntegerType, ResolvedType,
    Structure, StructureComponent, SubtypeElement, Tag, TagKind, TagType, TaggedType, Class,
    UntaggedType,
};
use asn1chef::value_parser::{parse_value, parse_value_assignment};
use asn1chef::values::{BuiltinValue, Value};
use asn1chef::ast::{AstChoiceValue, AstEnumerationItem, AstSpecialRealValue};
use asn1chef::ast::{
    AstComponentConstraint, AstInnerTypeConstraints, AstNamedConstraint, AstPresenceConstraint,
    AstRangeLowerBound, AstRangeUpperBound, AstStructure, AstStructureComponent, AstTypeAssignment,
    AstValueRange,
};
use asn1chef::constraint_parser::{apply_pending_constraint, parse_type_assignment_constraint};
use asn1chef::type_parser::parse_type;
use asn1chef::types::{Choice, ChoiceAlternative, InnerTypeConstraintsKind, Presence, StructureOf};

fn el<T>(x: T) -> AstElement<T> {
    AstElement::new(x, Loc::at(0))
}

fn name(s: &str) -> AstElement<String> {
    el(s.to_string())
}

fn module() -> ModuleIdentifier {
    ModuleIdentifier::with_name("M".to_string())
}

fn context() -> Context {
    let mut ctx = Context::new();
    ctx.register_module(ModuleHeader { ident: module(), imports: Vec::new() });
    ctx
}

fn builtin_value(v: AstBuiltinValue) -> AstElement<AstValue> {
    el(AstValue::BuiltinValue(el(v)))
}

fn int_value(v: u8) -> AstElement<AstValue> {
    builtin_value(AstBuiltinValue::IntegerValue(el(AstIntegerValue { negative: false, magnitude: vec![v] })))
}

fn string_value(kind: StringKind, data: &str) -> AstElement<AstValue> {
    builtin_value(AstBuiltinValue::StringLiteral(el(AstStringLiteral { kind, data: data.to_string() })))
}

fn integer_type() -> TaggedType {
    TaggedType { tag: None, ty: UntaggedType::BuiltinType(BuiltinType::Integer(IntegerType { named_values: None })), constraint: None }
}

fn resolved(ty: &BuiltinType) -> ResolvedType<'_> {
    ResolvedType { tag: None, ty, constraint: None }
}

fn value_of(b: &BigInteger) -> i128 {
    let mut v: i128 = 0;
    for (i, byte) in b.magnitude.iter().enumerate() {
        v += (*byte as i128) << (8 * i);
    }
    if b.negative {
        -v
    } else {
        v
    }
}

fn integer_of(v: &Value) -> i128 {
    match v {
        Value::BuiltinValue(BuiltinValue::Integer(i)) => value_of(i),
        other => panic!("not an integer: {:?}", other),
    }
}

fn seq_type() -> BuiltinType {
    BuiltinType::Structure(Structure {
        ty: TagType::Sequence,
        components: vec![
            StructureComponent { name: name("a"), component_type: Box::new(integer_type()), optional: false, default_value: None },
            StructureComponent { name: name("b"), component_type: Box::new(integer_type()), optional: true, default_value: None },
            StructureComponent {
                name: name("c"),
                component_type: Box::new(integer_type()),
                optional: false,
                default_value: Some(Box::new(el(Value::BuiltinValue(BuiltinValue::Integer(BigInteger::from_i64(7)))))),
            },
        ],
    })
}

fn structure_value(items: Vec<(&str, u8)>) -> AstElement<AstValue> {
    builtin_value(AstBuiltinValue::StructureValue(el(items
        .into_iter()
        .map(|(n, v)| el(AstNamedValue { name: name(n), value: int_value(v) }))
        .collect())))
}

#[test]
fn structure_value_follows_declared_order() {
    let ctx = context();
    let parser = AstParser { context: &ctx, module: module() };
    let ty = seq_type();
    let v = parse_value(&parser, &structure_value(vec![("c", 3), ("a", 1)]), &resolved(&ty)).unwrap();
    match v.element {
        Value::BuiltinValue(BuiltinValue::Sequence(sv)) => {
            assert_eq!(sv.components.len(), 2);
            assert_eq!(sv.components[0].name.element, "a");
            assert_eq!(integer_of(&sv.components[0].value.element), 1);
            assert!(!sv.components[0].is_default);
            assert_eq!(sv.components[1].name.element, "c");
            assert_eq!(integer_of(&sv.components[1].value.element), 3);
            assert!(!sv.components[1].is_default);
        }
        other => panic!("unexpected {:?}", other),
    }
}

#[test]
fn structure_value_takes_defaults() {
    let ctx = context();
    let parser = AstParser { context: &ctx, module: module() };
    let ty = seq_type();
    let v = parse_value(&parser, &structure_value(vec![("b", 5), ("a", 1)]), &resolved(&ty)).unwrap();
    match v.element {
        Value::BuiltinValue(BuiltinValue::Sequence(sv)) => {
            let names: Vec<&str> = sv.components.iter().map(|c| c.name.element.as_str()).collect();
            assert_eq!(names, vec!["a", "b", "c"]);
            assert_eq!(integer_of(&sv.components[2].value.element), 7);
            assert!(sv.components[2].is_default);
            assert!(!sv.components[1].is_default);
        }
        other => panic!("unexpected {:?}", other),
    }
}

#[test]
fn structure_value_errors() {
    let ctx = context();
    let parser = AstParser { context: &ctx, module: module() };
    let ty = seq_type();
    assert!(parse_value(&parser, &structure_value(vec![("c", 3)]), &resolved(&ty)).is_err());
    assert!(parse_value(&parser, &structure_value(vec![("a", 1), ("z", 3)]), &resolved(&ty)).is_err());
    let int_ty = BuiltinType::Integer(IntegerType { named_values: None });
    assert!(parse_value(&parser, &structure_value(vec![("a", 1)]), &resolved(&int_ty)).is_err());
}

fn color_type() -> BuiltinType {
    BuiltinType::Enumerated(
        ["red", "green", "blue"]
            .iter()
            .enumerate()
            .map(|(i, n)| EnumerationItem { name: name(n), value: EnumerationItemValue::Implied(i as i64) })
            .collect(),
    )
}

fn enumerated_integer(v: &Value) -> i128 {
    match v {
        Value::BuiltinValue(BuiltinValue::Enumerated(inner)) => integer_of(&inner.element),
        other => panic!("not an enumerated value: {:?}", other),
    }
}

#[test]
fn enumerated_value_reference() {
    let ctx = context();
    let parser = AstParser { context: &ctx, module: module() };
    let ty = color_type();
    let v = parse_value(&parser, &el(AstValue::ValueReference(name("green"))), &resolved(&ty)).unwrap();
    assert_eq!(enumerated_integer(&v.element), 1);
    let v = parse_value(&parser, &el(AstValue::ValueReference(name("red"))), &resolved(&ty)).unwrap();
    assert_eq!(enumerated_integer(&v.element), 0);
    // a name that is no item is a reference
    let v = parse_value(&parser, &el(AstValue::ValueReference(name("purple"))), &resolved(&ty)).unwrap();
    match v.element {
        Value::Reference(q) => {
            assert_eq!(q.name, "purple");
            assert_eq!(q.module.name, "M");
        }
        other => panic!("unexpected {:?}", other),
    }
}

fn type_reference(n: &str) -> AstElement<AstType> {
    el(AstType::ConstrainedType(el(AstConstrainedType::Suffixed(el(AstSuffixedType {
        ty: el(AstUntaggedType::TypeReference(name(n))),
        constraint: None,
    })))))
}

#[test]
fn value_assignment_through_registered_type() {
    let mut ctx = context();
    ctx.register_type(
        QualifiedIdentifier::new(module(), "Color".to_string()),
        DeclaredType { parameters: Vec::new(), ty: TaggedType { tag: None, ty: UntaggedType::BuiltinType(color_type()), constraint: None } },
    );
    let parser = AstParser { context: &ctx, module: module() };
    let assignment = el(AstValueAssignment {
        name: name("x"),
        ty: type_reference("Color"),
        value: el(AstValue::ValueReference(name("green"))),
    });
    let (ident, decl) = parse_value_assignment(&parser, &assignment).unwrap();
    assert_eq!(ident.name, "x");
    assert_eq!(enumerated_integer(&decl.value.element), 1);
    let missing = el(AstValueAssignment { name: name("y"), ty: type_reference("Shade"), value: el(AstValue::ValueReference(name("green"))) });
    assert!(parse_value_assignment(&parser, &missing).is_err());
}

#[test]
fn octet_string_literals() {
    let ctx = context();
    let parser = AstParser { context: &ctx, module: module() };
    let ty = BuiltinType::OctetString;
    let octets = |kind, data: &str| match parse_value(&parser, &string_value(kind, data), &resolved(&ty)).map(|v| v.element) {
        Ok(Value::BuiltinValue(BuiltinValue::OctetString(o))) => Some(o),
        _ => None,
    };
    assert_eq!(octets(StringKind::H, "F"), Some(vec![0xF0]));
    assert_eq!(octets(StringKind::H, "0aFF1"), Some(vec![0x0A, 0xFF, 0x10]));
    assert_eq!(octets(StringKind::B, "101"), Some(vec![0xA0]));
    assert_eq!(octets(StringKind::B, "000000011"), Some(vec![0x01, 0x80]));
    assert_eq!(octets(StringKind::H, ""), Some(vec![]));
    assert_eq!(octets(StringKind::H, "G1"), None);
    assert_eq!(octets(StringKind::B, "2"), None);
    assert_eq!(octets(StringKind::C, "ab"), None);
}

#[test]
fn bit_string_literals() {
    let ctx = context();
    let parser = AstParser { context: &ctx, module: module() };
    let ty = BuiltinType::BitString(BitStringType { named_bits: None });
    match parse_value(&parser, &string_value(StringKind::H, "A5"), &resolved(&ty)).unwrap().element {
        Value::BuiltinValue(BuiltinValue::BitString(n)) => assert_eq!(value_of(&n), 0xA5),
        other => panic!("unexpected {:?}", other),
    }
    match parse_value(&parser, &string_value(StringKind::B, "101"), &resolved(&ty)).unwrap().element {
        Value::BuiltinValue(BuiltinValue::BitString(n)) => assert_eq!(value_of(&n), 5),
        other => panic!("unexpected {:?}", other),
    }
    match parse_value(&parser, &string_value(StringKind::B, ""), &resolved(&ty)).unwrap().element {
        Value::BuiltinValue(BuiltinValue::OctetString(o)) => assert!(o.is_empty()),
        other => panic!("unexpected {:?}", other),
    }
    assert!(parse_value(&parser, &string_value(StringKind::C, "1"), &resolved(&ty)).is_err());
}

#[test]
fn character_string_validation() {
    let ctx = context();
    let parser = AstParser { context: &ctx, module: module() };
    let check = |tag: TagType, data: &str| {
        let ty = BuiltinType::CharacterString(tag);
        parse_value(&parser, &string_value(StringKind::C, data), &resolved(&ty)).is_ok()
    };
    assert!(check(TagType::NumericString, "123 45"));
    assert!(!check(TagType::NumericString, "12a"));
    assert!(check(TagType::PrintableString, "Hello, World (1+2=3)?"));
    assert!(!check(TagType::PrintableString, "a@b"));
    assert!(check(TagType::VisibleString, "~tilde"));
    assert!(!check(TagType::VisibleString, "tab\t"));
    assert!(check(TagType::TeletexString, "del\x7f"));
    assert!(check(TagType::IA5String, "\x00\x7f"));
    assert!(!check(TagType::IA5String, "é"));
    assert!(check(TagType::UTF8String, "é\u{1}"));
    assert!(check(TagType::GraphicString, "é b"));
    assert!(!check(TagType::GraphicString, "\n"));
    let ty = BuiltinType::CharacterString(TagType::UTF8String);
    assert!(parse_value(&parser, &string_value(StringKind::H, "AB"), &resolved(&ty)).is_err());
    match parse_value(&parser, &string_value(StringKind::C, "hé"), &resolved(&ty)).unwrap().element {
        Value::BuiltinValue(BuiltinValue::CharacterString(t, s)) => {
            assert_eq!(t, TagType::UTF8String);
            assert_eq!(s, "hé");
        }
        other => panic!("unexpected {:?}", other),
    }
}

#[test]
fn time_literals() {
    let ctx = context();
    let parser = AstParser { context: &ctx, module: module() };
    let ty = BuiltinType::UTCTime;
    match parse_value(&parser, &string_value(StringKind::C, "8804152030-0600"), &resolved(&ty)).unwrap().element {
        Value::BuiltinValue(BuiltinValue::UTCTime(t)) => assert_eq!(t.to_ber_string(), "8804152030-0600"),
        other => panic!("unexpected {:?}", other),
    }
    let ty = BuiltinType::Date;
    assert!(parse_value(&parser, &string_value(StringKind::C, "2012-13-01"), &resolved(&ty)).is_err());
    let ty = BuiltinType::Boolean;
    assert!(parse_value(&parser, &string_value(StringKind::C, "TRUE"), &resolved(&ty)).is_err());
}

#[test]
fn decimal_literal_to_real() {
    let ctx = context();
    let parser = AstParser { context: &ctx, module: module() };
    let ty = BuiltinType::Real;
    let dec = |negative, whole: u8, fraction: &str| {
        builtin_value(AstBuiltinValue::DecimalValue(el(AstDecimalValue {
            negative,
            whole: vec![whole],
            fraction: fraction.as_bytes().to_vec(),
        })))
    };
    match parse_value(&parser, &dec(false, 3, "14"), &resolved(&ty)).unwrap().element {
        Value::BuiltinValue(BuiltinValue::RealLiteral(r)) => {
            assert_eq!(value_of(&r.mantissa), 314);
            assert_eq!(value_of(&r.exponent), -2);
        }
        other => panic!("unexpected {:?}", other),
    }
    match parse_value(&parser, &dec(true, 2, "05"), &resolved(&ty)).unwrap().element {
        Value::BuiltinValue(BuiltinValue::RealLiteral(r)) => {
            assert_eq!(value_of(&r.mantissa), -205);
            assert_eq!(value_of(&r.exponent), -2);
        }
        other => panic!("unexpected {:?}", other),
    }
    assert!(parse_value(&parser, &dec(false, 1, "2x"), &resolved(&ty)).is_err());
}

#[test]
fn integer_and_boolean_literals() {
    let ctx = context();
    let parser = AstParser { context: &ctx, module: module() };
    let ty = BuiltinType::Integer(IntegerType { named_values: None });
    let v = builtin_value(AstBuiltinValue::IntegerValue(el(AstIntegerValue { negative: true, magnitude: vec![0x81, 0x00] })));
    assert_eq!(integer_of(&parse_value(&parser, &v, &resolved(&ty)).unwrap().element), -129);
    let ty = BuiltinType::Boolean;
    match parse_value(&parser, &builtin_value(AstBuiltinValue::BooleanValue(true)), &resolved(&ty)).unwrap().element {
        Value::BuiltinValue(BuiltinValue::Boolean(b)) => assert!(b),
        other => panic!("unexpected {:?}", other),
    }
}

fn size_of(inner: AstConstraint) -> AstElement<AstSubtypeElement> {
    el(AstSubtypeElement::SizeConstraint(el(inner)))
}

fn single(v: u8) -> AstElement<AstSubtypeElement> {
    el(AstSubtypeElement::SingleValueConstraint(int_value(v)))
}

#[test]
fn size_within_size_is_refused() {
    let ctx = context();
    let parser = AstParser { context: &ctx, module: module() };
    let ty = BuiltinType::OctetString;
    let nested = AstConstraint(vec![el(vec![size_of(AstConstraint(vec![el(vec![size_of(AstConstraint(vec![el(vec![single(1)])]))])]))])]);
    assert!(parse_constraint(&parser, &el(nested), &resolved(&ty), ConstraintContext::Contextless).is_err());
    let direct = AstConstraint(vec![el(vec![size_of(AstConstraint(vec![el(vec![single(1)])]))])]);
    assert!(parse_constraint(&parser, &el(direct), &resolved(&ty), ConstraintContext::WithinSize).is_err());
}

#[test]
fn size_constraint_is_lowered() {
    let ctx = context();
    let parser = AstParser { context: &ctx, module: module() };
    let ty = BuiltinType::Integer(IntegerType { named_values: None });
    let c = AstConstraint(vec![el(vec![size_of(AstConstraint(vec![el(vec![single(4), single(8)])]))])]);
    let lowered = parse_constraint(&parser, &el(c), &resolved(&ty), ConstraintContext::Contextless).unwrap();
    assert_eq!(lowered.0.len(), 1);
    match &lowered.0[0][0].element {
        SubtypeElement::Size(inner) => {
            assert_eq!(inner.0[0].len(), 2);
            assert!(matches!(inner.0[0][0].element, SubtypeElement::SingleValue(_)));
        }
        other => panic!("unexpected {:?}", other),
    }
}

fn contents_of_integer() -> AstElement<AstSubtypeElement> {
    el(AstSubtypeElement::ContentsConstraint(Box::new(el(AstType::ConstrainedType(el(AstConstrainedType::Suffixed(el(
        AstSuffixedType { ty: el(AstUntaggedType::BuiltinType(el(AstBuiltinType::Integer))), constraint: None },
    ))))))))
}

#[test]
fn containing_only_on_strings() {
    let ctx = context();
    let parser = AstParser { context: &ctx, module: module() };
    let int_ty = BuiltinType::Integer(IntegerType { named_values: None });
    let c = AstConstraint(vec![el(vec![contents_of_integer()])]);
    assert!(parse_constraint(&parser, &el(c), &resolved(&int_ty), ConstraintContext::Contextless).is_err());
    let octets = BuiltinType::OctetString;
    let c = AstConstraint(vec![el(vec![contents_of_integer()])]);
    let lowered = parse_constraint(&parser, &el(c), &resolved(&octets), ConstraintContext::Contextless).unwrap();
    assert!(matches!(lowered.0[0][0].element, SubtypeElement::Contents(_)));
}

#[test]
fn containing_value_needs_contents_constraint() {
    let ctx = context();
    let parser = AstParser { context: &ctx, module: module() };
    let octets = BuiltinType::OctetString;
    let inner = int_value(5);
    let containing = builtin_value(AstBuiltinValue::ContainingValue(Box::new(inner)));
    assert!(parse_value(&parser, &containing, &resolved(&octets)).is_err());
    let c = parse_constraint(
        &parser,
        &el(AstConstraint(vec![el(vec![contents_of_integer()])])),
        &resolved(&octets),
        ConstraintContext::Contextless,
    )
    .unwrap();
    let constrained = ResolvedType { tag: None, ty: &octets, constraint: Some(&c) };
    match parse_value(&parser, &containing, &constrained).unwrap().element {
        Value::BuiltinValue(BuiltinValue::Containing(cv)) => {
            assert_eq!(cv.container_type, TagType::OctetString);
            assert_eq!(integer_of(&cv.value.element), 5);
        }
        other => panic!("unexpected {:?}", other),
    }
}

#[test]
fn registry_keeps_registration_order() {
    let mut ctx = context();
    for (n, num) in [("B", 3u16), ("A", 1), ("C", 2)] {
        ctx.register_type(
            QualifiedIdentifier::new(module(), n.to_string()),
            DeclaredType {
                parameters: Vec::new(),
                ty: TaggedType {
                    tag: Some(Tag { class: Class::Application, num, kind: TagKind::Explicit }),
                    ty: UntaggedType::BuiltinType(BuiltinType::Null),
                    constraint: None,
                },
            },
        );
    }
    let names: Vec<String> = ctx.list_types().iter().map(|(q, _)| q.name.clone()).collect();
    assert_eq!(names, vec!["B", "A", "C"]);
    assert!(ctx.lookup_type(&QualifiedIdentifier::new(module(), "B".to_string())).unwrap().parameters.is_empty());
    assert!(ctx.lookup_type(&QualifiedIdentifier::new(module(), "D".to_string())).is_none());
    let by_tag = ctx.lookup_type_by_tag(Class::Application, 2).unwrap();
    assert_eq!(by_tag.ty.tag.unwrap().num, 2);
    assert!(ctx.lookup_type_by_tag(Class::Private, 2).is_none());
    assert_eq!(ctx.lookup_module_by_name("M").unwrap().ident.name, "M");
    assert!(ctx.lookup_module_by_name("N").is_none());
    assert_eq!(ctx.list_modules().len(), 1);
    ctx.clear();
    assert!(ctx.list_types().is_empty());
    assert!(ctx.list_modules().is_empty());
}

fn builtin_ast_type(b: AstBuiltinType, constraint: Option<AstConstraint>) -> AstElement<AstType> {
    el(AstType::ConstrainedType(el(AstConstrainedType::Suffixed(el(AstSuffixedType {
        ty: el(AstUntaggedType::BuiltinType(el(b))),
        constraint: constraint.map(el),
    })))))
}

#[test]
fn inline_enumerated_assignment() {
    let ctx = context();
    let parser = AstParser { context: &ctx, module: module() };
    let items = ["red", "green", "blue"]
        .iter()
        .map(|n| el(AstEnumerationItem { name: name(n), value: None }))
        .collect();
    let assignment = el(AstValueAssignment {
        name: name("x"),
        ty: builtin_ast_type(AstBuiltinType::Enumerated(items), None),
        value: el(AstValue::ValueReference(name("green"))),
    });
    let (_, decl) = parse_value_assignment(&parser, &assignment).unwrap();
    assert_eq!(enumerated_integer(&decl.value.element), 1);
    match &decl.ty.ty {
        UntaggedType::BuiltinType(BuiltinType::Enumerated(items)) => {
            assert!(matches!(items[2].value, EnumerationItemValue::Implied(2)));
        }
        other => panic!("unexpected {:?}", other),
    }
}

#[test]
fn type_assignment_constraints_are_applied() {

    let range = |lo: u8, hi: u8| {
        AstConstraint(vec![el(vec![el(AstSubtypeElement::ValueRangeConstraint(el(AstValueRange {
            lower: el(AstRangeLowerBound::Value(int_value(lo))),
            upper: el(AstRangeUpperBound::Value(int_value(hi))),
        })))])])
    };
    let make_ast = || {
        let component = el(AstStructureComponent {
            name: name("a"),
            ty: builtin_ast_type(AstBuiltinType::OctetString, Some(AstConstraint(vec![el(vec![size_of(range(1, 4))])]))),
            optional: true,
            default_value: None,
        });
        let with_components = AstConstraint(vec![el(vec![el(AstSubtypeElement::InnerTypeConstraints(el(AstInnerTypeConstraints {
            kind: InnerTypeConstraintsKind::Partial,
            components: vec![el(AstNamedConstraint {
                name: name("a"),
                constraint: el(AstComponentConstraint::PresenceConstraint(el(AstPresenceConstraint::PresencePresent))),
            })],
        })))])]);
        builtin_ast_type(
            AstBuiltinType::Structure(el(AstStructure { kind: TagType::Sequence, components: vec![component] })),
            Some(with_components),
        )
    };
    let mut ctx = context();
    let ident = QualifiedIdentifier::new(module(), "T".to_string());
    let ty = {
        let parser = AstParser { context: &ctx, module: module() };
        parse_type(&parser, &make_ast()).unwrap()
    };
    assert!(ty.constraint.is_none());
    ctx.register_type(ident.clone(), DeclaredType { parameters: Vec::new(), ty });
    let assignment = el(AstTypeAssignment { name: name("T"), ty: make_ast() });
    let (pending_ident, pending) = {
        let parser = AstParser { context: &ctx, module: module() };
        parse_type_assignment_constraint(&parser, &assignment).unwrap()
    };
    assert_eq!(pending_ident.name, "T");
    let decl = ctx.lookup_type_mut(&ident).unwrap();
    apply_pending_constraint(&mut decl.ty, pending);
    let decl = ctx.lookup_type(&ident).unwrap();
    let constraint = decl.ty.constraint.as_ref().unwrap();
    match &constraint.0[0][0].element {
        SubtypeElement::InnerType(itc) => {
            assert_eq!(itc.kind, InnerTypeConstraintsKind::Partial);
            assert_eq!(itc.components[0].name.element, "a");
            assert_eq!(itc.components[0].constraint.presence, Some(Presence::Present));
        }
        other => panic!("unexpected {:?}", other),
    }
    match &decl.ty.ty {
        UntaggedType::BuiltinType(BuiltinType::Structure(s)) => {
            let c = s.components[0].component_type.constraint.as_ref().unwrap();
            assert!(matches!(c.0[0][0].element, SubtypeElement::Size(_)));
        }
        other => panic!("unexpected {:?}", other),
    }
}

#[test]
fn inner_type_constraint_needs_known_component() {
    let ctx = context();
    let parser = AstParser { context: &ctx, module: module() };
    let ty = seq_type();
    let constraint = |n: &str| {
        el(AstConstraint(vec![el(vec![el(AstSubtypeElement::InnerTypeConstraints(el(AstInnerTypeConstraints {
            kind: InnerTypeConstraintsKind::Full,
            components: vec![el(AstNamedConstraint {
                name: name(n),
                constraint: el(AstComponentConstraint::PresenceConstraint(el(AstPresenceConstraint::PresenceAbsent))),
            })],
        })))])]))
    };
    assert!(parse_constraint(&parser, &constraint("b"), &resolved(&ty), ConstraintContext::Contextless).is_ok());
    assert!(parse_constraint(&parser, &constraint("zz"), &resolved(&ty), ConstraintContext::Contextless).is_err());
    let int_ty = BuiltinType::Integer(IntegerType { named_values: None });
    assert!(parse_constraint(&parser, &constraint("b"), &resolved(&int_ty), ConstraintContext::Contextless).is_err());
}

#[test]
fn choice_and_sequence_of_values() {
    let ctx = context();
    let parser = AstParser { context: &ctx, module: module() };
    let choice = BuiltinType::Choice(Choice {
        alternatives: vec![
            ChoiceAlternative { name: name("flag"), alternative_type: Box::new(TaggedType { tag: None, ty: UntaggedType::BuiltinType(BuiltinType::Boolean), constraint: None }) },
            ChoiceAlternative { name: name("count"), alternative_type: Box::new(integer_type()) },
        ],
    });
    let v = builtin_value(AstBuiltinValue::ChoiceValue(el(AstChoiceValue { alternative: name("count"), value: Box::new(int_value(9)) })));
    match parse_value(&parser, &v, &resolved(&choice)).unwrap().element {
        Value::BuiltinValue(BuiltinValue::Choice(c)) => {
            assert_eq!(c.alternative_index, 1);
            assert_eq!(c.alternative.element, "count");
            assert_eq!(integer_of(&c.value.element), 9);
        }
        other => panic!("unexpected {:?}", other),
    }
    let bad = builtin_value(AstBuiltinValue::ChoiceValue(el(AstChoiceValue { alternative: name("size"), value: Box::new(int_value(9)) })));
    assert!(parse_value(&parser, &bad, &resolved(&choice)).is_err());
    let seq_of = BuiltinType::StructureOf(StructureOf { ty: TagType::Sequence, component_type: Box::new(integer_type()) });
    let v = builtin_value(AstBuiltinValue::StructureOfValue(el(vec![int_value(3), int_value(1), int_value(2)])));
    match parse_value(&parser, &v, &resolved(&seq_of)).unwrap().element {
        Value::BuiltinValue(BuiltinValue::SequenceOf(xs)) => {
            let values: Vec<i128> = xs.iter().map(|x| integer_of(&x.element)).collect();
            assert_eq!(values, vec![3, 1, 2]);
        }
        other => panic!("unexpected {:?}", other),
    }
    assert!(parse_value(&parser, &v, &resolved(&choice)).is_err());
}

#[test]
fn special_real_values_name_catalog_constants() {
    let ctx = context();
    let parser = AstParser { context: &ctx, module: module() };
    let ty = BuiltinType::Real;
    let v = builtin_value(AstBuiltinValue::SpecialRealValue(el(AstSpecialRealValue::MinusInfinity)));
    match parse_value(&parser, &v, &resolved(&ty)).unwrap().element {
        Value::Reference(q) => {
            assert_eq!(q.module.name, "Real");
            assert_eq!(q.name, "minus-infinity");
        }
        other => panic!("unexpected {:?}", other),
    }
}

#[test]
fn stricter_literal_checks() {
    let ctx = context();
    let parser = AstParser { context: &ctx, module: module() };
    let bits = BuiltinType::BitString(BitStringType { named_bits: None });
    assert!(parse_value(&parser, &string_value(StringKind::H, "A_5"), &resolved(&bits)).is_err());
    assert!(parse_value(&parser, &string_value(StringKind::B, "+101"), &resolved(&bits)).is_err());
    let date = BuiltinType::Date;
    assert!(parse_value(&parser, &string_value(StringKind::H, "2012-12-21"), &resolved(&date)).is_err());
    assert!(parse_value(&parser, &string_value(StringKind::C, "2012-12-21"), &resolved(&date)).is_ok());
}

#[test]
fn duplicate_member_names_are_refused() {
    let ctx = context();
    let parser = AstParser { context: &ctx, module: module() };
    let component = |n: &str| {
        el(AstStructureComponent {
            name: name(n),
            ty: builtin_ast_type(AstBuiltinType::Integer, None),
            optional: false,
            default_value: None,
        })
    };
    let twice = builtin_ast_type(
        AstBuiltinType::Structure(el(AstStructure { kind: TagType::Sequence, components: vec![component("a"), component("a")] })),
        None,
    );
    assert!(parse_type(&parser, &twice).is_err());
    let once = builtin_ast_type(
        AstBuiltinType::Structure(el(AstStructure { kind: TagType::Sequence, components: vec![component("a"), component("b")] })),
        None,
    );
    assert!(parse_type(&parser, &once).is_ok());
}

#[test]
fn unknown_inner_component_error_location() {
    let ctx = context();
    let parser = AstParser { context: &ctx, module: module() };
    let ty = seq_type();
    let c = el(AstConstraint(vec![el(vec![el(AstSubtypeElement::InnerTypeConstraints(el(AstInnerTypeConstraints {
        kind: InnerTypeConstraintsKind::Partial,
        components: vec![
            el(AstNamedConstraint { name: name("a"), constraint: el(AstComponentConstraint::PresenceConstraint(el(AstPresenceConstraint::PresencePresent))) }),
            el(AstNamedConstraint {
                name: AstElement::new("zz".to_string(), Loc::new(40, 2)),
                constraint: el(AstComponentConstraint::PresenceConstraint(el(AstPresenceConstraint::PresenceAbsent))),
            }),
        ],
    })))])]));
    let e = parse_constraint(&parser, &c, &resolved(&ty), ConstraintContext::Contextless).unwrap_err();
    assert_eq!(e.loc, Loc::new(40, 2));
}
