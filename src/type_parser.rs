//! Lowering of syntax-tree types into tagged types, and resolution of type references.
use vstd::prelude::*;
use crate::ast::{AstBuiltinType, AstConstrainedType, AstEnumerationItem, AstStructureOf, AstType, AstUntaggedType};
use crate::value_parser::parse_value;
use crate::context::{index_of, Context};
use crate::error::{ast_error, AstElement, Error, Loc};
use crate::module::ModuleIdentifier;
use crate::types::{
    BitStringType, BuiltinType, Choice, Constraint, ChoiceAlternative, EnumerationItem, EnumerationItemValue,
    IntegerType, ResolvedType, Structure, StructureComponent, StructureOf, Tag, TaggedType,
    UntaggedType,
};


verus! {

/// What lowering needs to know: the registry so far and the module being lowered.
pub struct AstParser<'a> {
    pub context: &'a Context,
    pub module: ModuleIdentifier,
}

pub open spec fn same_constraint(a: Option<&Constraint>, b: Option<Constraint>) -> bool {
    match (a, b) {
        (Some(x), Some(y)) => *x == y,
        (None, None) => true,
        _ => false,
    }
}

/// Follows type references through the registry until a builtin type is reached.
/// The tag and the constraint are the first ones met on the way. A chain longer
/// than the number of registered types is circular and refused.
pub fn resolve<'a>(context: &'a Context, ty: &'a TaggedType, loc: Loc) -> (r: Result<ResolvedType<'a>, Error>)
    ensures
        ty.ty matches UntaggedType::BuiltinType(b) ==> r matches Ok(rt) && *rt.ty == b && rt.tag
            == ty.tag && same_constraint(rt.constraint, ty.constraint),
        ty.ty matches UntaggedType::Reference(q) ==> (index_of(context.types(), q@) < 0 ==> r is Err),
        ty.ty matches UntaggedType::Reference(q) ==> (index_of(context.types(), q@) >= 0 ==> ({
            let d = context.types()[index_of(context.types(), q@)].1.ty;
            d.ty matches UntaggedType::BuiltinType(b) ==> (r matches Ok(rt) && *rt.ty == b
                && rt.tag == (if ty.tag is Some { ty.tag } else { d.tag })
                && (ty.constraint is Some ==> same_constraint(rt.constraint, ty.constraint))
                && (ty.constraint is None ==> same_constraint(rt.constraint, d.constraint)))
        })),
        r matches Err(e) ==> e.is_ast(),
{
    let mut cur: &'a TaggedType = ty;
    let mut tag: Option<Tag> = ty.tag;
    let mut constraint = match &ty.constraint {
        Some(c) => Some(c),
        None => None,
    };
    let limit = context.type_count();
    let mut steps: usize = 0;
    loop
        invariant
            steps == 0 ==> cur == ty && tag == ty.tag && same_constraint(constraint, ty.constraint),
            steps > 0 ==> (ty.ty matches UntaggedType::Reference(q0) && index_of(context.types(), q0@) >= 0),
            steps >= 2 ==> (ty.ty matches UntaggedType::Reference(q0)
                && context.types()[index_of(context.types(), q0@)].1.ty.ty is Reference),
            steps == 1 ==> (ty.ty matches UntaggedType::Reference(q0) && ({
                let d = context.types()[index_of(context.types(), q0@)].1.ty;
                &&& *cur == d
                &&& tag == (if ty.tag is Some { ty.tag } else { d.tag })
                &&& ty.constraint is Some ==> same_constraint(constraint, ty.constraint)
                &&& ty.constraint is None ==> same_constraint(constraint, d.constraint)
            })),
            steps <= limit,
            limit == context.types().len(),
        decreases limit - steps,
    {
        match &cur.ty {
            UntaggedType::BuiltinType(b) => {
                return Ok(ResolvedType { tag, ty: b, constraint });
            },
            UntaggedType::Reference(q) => {
                if steps >= limit {
                    return Err(ast_error("circular type reference", loc));
                }
                match context.lookup_type(q) {
                    Some(decl) => {
                        cur = &decl.ty;
                        if tag.is_none() {
                            tag = cur.tag;
                        }
                        if constraint.is_none() {
                            constraint = match &cur.constraint {
                                Some(c) => Some(c),
                                None => None,
                            };
                        }
                    },
                    None => {
                        return Err(ast_error("reference to an undefined type", loc));
                    },
                }
            },
        }
        steps = steps + 1;
    }
}


/// The constrained type inside a syntax-tree type.
pub open spec fn ast_type_body(t: AstType) -> AstConstrainedType {
    match t {
        AstType::TaggedType(tt) => tt.element.ty.element,
        AstType::ConstrainedType(c) => c.element,
    }
}

/// The components of a SEQUENCE or SET, or the alternatives of a CHOICE, have pairwise
/// different names.
pub open spec fn distinct_member_names(t: BuiltinType) -> bool {
    match t {
        BuiltinType::Structure(s) => forall|a: int, b: int|
            0 <= a < b < s.components@.len() ==> (#[trigger] s.components@[a]).name.element@ != (#[trigger] s.components@[b]).name.element@,
        BuiltinType::Choice(c) => forall|a: int, b: int|
            0 <= a < b < c.alternatives@.len() ==> (#[trigger] c.alternatives@[a]).name.element@ != (#[trigger] c.alternatives@[b]).name.element@,
        _ => true,
    }
}

fn component_named(cs: &Vec<StructureComponent>, name: &String) -> (r: bool)
    ensures
        r == exists|k: int| 0 <= k < cs@.len() && (#[trigger] cs@[k]).name.element@ == name@,
{
    let mut k: usize = 0;
    while k < cs.len()
        invariant
            k <= cs@.len(),
            forall|j: int| 0 <= j < k ==> (#[trigger] cs@[j]).name.element@ != name@,
        decreases cs@.len() - k,
    {
        if cs[k].name.element == *name {
            assert(cs@[k as int].name.element@ == name@);
            return true;
        }
        k = k + 1;
    }
    false
}

fn alternative_named(cs: &Vec<ChoiceAlternative>, name: &String) -> (r: bool)
    ensures
        r == exists|k: int| 0 <= k < cs@.len() && (#[trigger] cs@[k]).name.element@ == name@,
{
    let mut k: usize = 0;
    while k < cs.len()
        invariant
            k <= cs@.len(),
            forall|j: int| 0 <= j < k ==> (#[trigger] cs@[j]).name.element@ != name@,
        decreases cs@.len() - k,
    {
        if cs[k].name.element == *name {
            assert(cs@[k as int].name.element@ == name@);
            return true;
        }
        k = k + 1;
    }
    false
}

/// A builtin type written without members, items or element type: lowering it cannot fail.
pub open spec fn simple_builtin(b: AstBuiltinType) -> bool {
    !(b is Enumerated || b is Structure || b is StructureOf || b is Choice)
}

/// The builtin type that a simple syntax-tree builtin type lowers to.
pub open spec fn simple_builtin_type(b: AstBuiltinType) -> BuiltinType {
    match b {
        AstBuiltinType::Boolean => BuiltinType::Boolean,
        AstBuiltinType::Integer => BuiltinType::Integer(IntegerType { named_values: None }),
        AstBuiltinType::BitString => BuiltinType::BitString(BitStringType { named_bits: None }),
        AstBuiltinType::OctetString => BuiltinType::OctetString,
        AstBuiltinType::Null => BuiltinType::Null,
        AstBuiltinType::ObjectIdentifier => BuiltinType::ObjectIdentifier,
        AstBuiltinType::RelativeOid => BuiltinType::RelativeOid,
        AstBuiltinType::Real => BuiltinType::Real,
        AstBuiltinType::CharacterString(t) => BuiltinType::CharacterString(t),
        AstBuiltinType::Time => BuiltinType::Time,
        AstBuiltinType::UTCTime => BuiltinType::UTCTime,
        AstBuiltinType::GeneralizedTime => BuiltinType::GeneralizedTime,
        AstBuiltinType::Date => BuiltinType::Date,
        AstBuiltinType::TimeOfDay => BuiltinType::TimeOfDay,
        AstBuiltinType::DateTime => BuiltinType::DateTime,
        _ => BuiltinType::Duration,
    }
}

/// `t` is what lowering the syntax-tree type `a` gives, as far as the contracts state it:
/// the written tag, no constraint yet, and for a simple builtin type that builtin type.
pub open spec fn type_lowered(a: AstType, t: TaggedType) -> bool {
    &&& t.tag == ast_tag(a)
    &&& t.constraint is None
    &&& (ast_type_body(a) matches AstConstrainedType::Suffixed(s) ==> (s.element.ty.element matches AstUntaggedType::BuiltinType(
        b,
    ) ==> (simple_builtin(b.element) ==> t.ty == UntaggedType::BuiltinType(simple_builtin_type(b.element)))))
}

/// The builtin type that a simple syntax-tree type lowers to.
pub open spec fn simple_type_of(t: AstType) -> BuiltinType {
    match ast_type_body(t) {
        AstConstrainedType::Suffixed(s) => match s.element.ty.element {
            AstUntaggedType::BuiltinType(b) => simple_builtin_type(b.element),
            _ => BuiltinType::Null,
        },
        _ => BuiltinType::Null,
    }
}

/// A syntax-tree type that is a simple builtin type, tagged or not.
pub open spec fn ast_simple(t: AstType) -> bool {
    ast_type_body(t) matches AstConstrainedType::Suffixed(s) && s.element.ty.element matches AstUntaggedType::BuiltinType(
        b,
    ) && simple_builtin(b.element)
}

/// The tag that a syntax-tree type carries, if any.
pub open spec fn ast_tag(ast: AstType) -> Option<Tag> {
    match ast {
        AstType::TaggedType(t) => Some(t.element.tag),
        AstType::ConstrainedType(_) => None,
    }
}

/// An enumeration lowered from the given items: same names, in order; where no item
/// gives a value, the values are implied, counting from zero in declaration order.
pub open spec fn enumeration_lowered(items: Seq<AstElement<AstEnumerationItem>>, r: Result<BuiltinType, Error>) -> bool {
    &&& (forall|i: int| 0 <= i < items.len() ==> (#[trigger] items[i]).element.value is None) && items.len() < i64::MAX ==> r is Ok
    &&& r matches Ok(t) ==> (t matches BuiltinType::Enumerated(out) && out@.len() == items.len()
        && (forall|k: int| #![trigger out@[k]] 0 <= k < out@.len() ==> out@[k].name.element@ == items[k].element.name.element@)
        && ((forall|i: int| 0 <= i < items.len() ==> (#[trigger] items[i]).element.value is None)
            ==> forall|k: int| #![trigger out@[k]] 0 <= k < out@.len() ==> out@[k].value == EnumerationItemValue::Implied(k as i64)))
}

/// Lowers a syntax-tree type into a tagged type. Type names become references resolved
/// through the module's imports; constraints are left for the constraint pass.
pub fn parse_type(parser: &AstParser, ast: &AstElement<AstType>) -> (r: Result<TaggedType, Error>)
    ensures
        r matches Ok(t) ==> t.tag == ast_tag(ast.element) && t.constraint is None,
        ast_simple(ast.element) ==> (r matches Ok(t) && t.ty is BuiltinType),
        r matches Ok(t) ==> type_lowered(ast.element, t),
        r matches Ok(t) ==> (t.ty matches UntaggedType::BuiltinType(b) ==> distinct_member_names(b)),
        r matches Err(e) ==> e.is_ast(),
    decreases ast,
{
    match &ast.element {
        AstType::TaggedType(tagged) => {
            let ty = match parse_constrained_type_body(parser, &tagged.element.ty) {
                Ok(ty) => ty,
                Err(e) => {
                    return Err(e);
                },
            };
            Ok(TaggedType { tag: Some(tagged.element.tag), ty, constraint: None })
        },
        AstType::ConstrainedType(constrained) => {
            let ty = match parse_constrained_type_body(parser, constrained) {
                Ok(ty) => ty,
                Err(e) => {
                    return Err(e);
                },
            };
            Ok(TaggedType { tag: None, ty, constraint: None })
        },
    }
}

fn parse_constrained_type_body(parser: &AstParser, ast: &AstElement<AstConstrainedType>) -> (r: Result<UntaggedType, Error>)
    ensures
        ast.element matches AstConstrainedType::Suffixed(s) ==> (s.element.ty.element matches AstUntaggedType::BuiltinType(b)
            ==> (simple_builtin(b.element) ==> (r matches Ok(t) && t == UntaggedType::BuiltinType(simple_builtin_type(b.element))))),
        r matches Ok(t) ==> (t matches UntaggedType::BuiltinType(b) ==> distinct_member_names(b)),
        r matches Err(e) ==> e.is_ast(),
    decreases ast,
{
    match &ast.element {
        AstConstrainedType::Suffixed(suffixed) => match &suffixed.element.ty.element {
            AstUntaggedType::BuiltinType(builtin) => match parse_builtin_type(parser, builtin) {
                Ok(b) => Ok(UntaggedType::BuiltinType(b)),
                Err(e) => Err(e),
            },
            AstUntaggedType::TypeReference(name) => match parser.context.lookup_module(&parser.module) {
                Some(header) => Ok(UntaggedType::Reference(header.resolve_symbol(&name.element))),
                None => Err(ast_error("the module being lowered is not registered", name.loc)),
            },
        },
        AstConstrainedType::TypeWithConstraint(of) => match parse_structure_of(parser, of) {
            Ok(b) => Ok(UntaggedType::BuiltinType(b)),
            Err(e) => Err(e),
        },
    }
}

fn parse_structure_of(parser: &AstParser, of: &AstElement<AstStructureOf>) -> (r: Result<BuiltinType, Error>)
    ensures
        r matches Ok(t) ==> t is StructureOf,
        r matches Err(e) ==> e.is_ast(),
    decreases of,
{
    let component_type = match parse_type(parser, &of.element.ty) {
        Ok(t) => t,
        Err(e) => {
            return Err(e);
        },
    };
    Ok(BuiltinType::StructureOf(StructureOf { ty: of.element.kind, component_type: Box::new(component_type) }))
}

pub fn parse_builtin_type(parser: &AstParser, ast: &AstElement<AstBuiltinType>) -> (r: Result<BuiltinType, Error>)
    ensures
        r matches Err(e) ==> e.is_ast(),
        simple_builtin(ast.element) ==> r == Ok::<BuiltinType, Error>(simple_builtin_type(ast.element)),
        r matches Ok(t) ==> distinct_member_names(t),
        ast.element matches AstBuiltinType::Enumerated(items) ==> enumeration_lowered(items@, r),
        ast.element matches AstBuiltinType::Structure(st) ==> (r matches Ok(t) ==> (t matches BuiltinType::Structure(s)
            && s.ty == st.element.kind && s.components@.len() == st.element.components@.len()
            && forall|k: int| #![trigger s.components@[k]] 0 <= k < s.components@.len()
                ==> s.components@[k].name.element@ == st.element.components@[k].element.name.element@
                && s.components@[k].optional == st.element.components@[k].element.optional
                && (s.components@[k].default_value is Some <==> st.element.components@[k].element.default_value is Some))),
        ast.element matches AstBuiltinType::Choice(ch) ==> (r matches Ok(t) ==> (t matches BuiltinType::Choice(c)
            && c.alternatives@.len() == ch.element@.len()
            && forall|k: int| #![trigger c.alternatives@[k]] 0 <= k < c.alternatives@.len()
                ==> c.alternatives@[k].name.element@ == ch.element@[k].element.name.element@)),
    decreases ast,
{
    match &ast.element {
        AstBuiltinType::Boolean => Ok(BuiltinType::Boolean),
        AstBuiltinType::Integer => Ok(BuiltinType::Integer(IntegerType { named_values: None })),
        AstBuiltinType::BitString => Ok(BuiltinType::BitString(BitStringType { named_bits: None })),
        AstBuiltinType::OctetString => Ok(BuiltinType::OctetString),
        AstBuiltinType::Null => Ok(BuiltinType::Null),
        AstBuiltinType::ObjectIdentifier => Ok(BuiltinType::ObjectIdentifier),
        AstBuiltinType::RelativeOid => Ok(BuiltinType::RelativeOid),
        AstBuiltinType::Real => Ok(BuiltinType::Real),
        AstBuiltinType::CharacterString(t) => Ok(BuiltinType::CharacterString(*t)),
        AstBuiltinType::Time => Ok(BuiltinType::Time),
        AstBuiltinType::UTCTime => Ok(BuiltinType::UTCTime),
        AstBuiltinType::GeneralizedTime => Ok(BuiltinType::GeneralizedTime),
        AstBuiltinType::Date => Ok(BuiltinType::Date),
        AstBuiltinType::TimeOfDay => Ok(BuiltinType::TimeOfDay),
        AstBuiltinType::DateTime => Ok(BuiltinType::DateTime),
        AstBuiltinType::Duration => Ok(BuiltinType::Duration),
        AstBuiltinType::Enumerated(ast_items) => {
            let int_ty = BuiltinType::Integer(IntegerType { named_values: None });
            let int_resolved = ResolvedType { tag: None, ty: &int_ty, constraint: None };
            let mut items: Vec<EnumerationItem> = Vec::new();
            let mut implied: i64 = 0;
            let mut i: usize = 0;
            while i < ast_items.len()
                invariant
                    ast.element == AstBuiltinType::Enumerated(*ast_items),
                    i <= ast_items@.len(),
                    0 <= implied <= i,
                    items@.len() == i,
                    forall|k: int| #![trigger items@[k]] 0 <= k < i ==> items@[k].name.element@ == ast_items@[k].element.name.element@,
                    (forall|k: int| 0 <= k < i ==> (#[trigger] ast_items@[k]).element.value is None) ==> (implied == i
                        && forall|k: int| #![trigger items@[k]] 0 <= k < i ==> items@[k].value == EnumerationItemValue::Implied(k as i64)),
                decreases ast_items@.len() - i,
            {
                let item = &ast_items[i];
                let value = match &item.element.value {
                    Some(v) => match parse_value(parser, v, &int_resolved) {
                        Ok(v) => EnumerationItemValue::Specified(v),
                        Err(e) => {
                            assert(ast_items@[i as int].element.value is Some);
                            return Err(e);
                        },
                    },
                    None => {
                        assert(implied <= i);
                        if implied == i64::MAX {
                            return Err(ast_error("too many enumeration items", item.loc));
                        }
                        let v = EnumerationItemValue::Implied(implied);
                        implied = implied + 1;
                        v
                    },
                };
                items.push(EnumerationItem {
                    name: AstElement::new(item.element.name.element.clone(), item.element.name.loc),
                    value,
                });
                i = i + 1;
            }
            Ok(BuiltinType::Enumerated(items))
        },
        AstBuiltinType::Structure(structure) => {
            let ast_components = &structure.element.components;
            let mut components: Vec<StructureComponent> = Vec::new();
            let mut i: usize = 0;
            while i < ast_components.len()
                invariant
                    *ast_components == structure.element.components,
                    ast.element == AstBuiltinType::Structure(*structure),
                    i <= ast_components@.len(),
                    components@.len() == i,
                    forall|a: int, b: int| 0 <= a < b < components@.len() ==> (#[trigger] components@[a]).name.element@ != (#[trigger] components@[b]).name.element@,
                    forall|k: int| #![trigger components@[k]] 0 <= k < i ==> components@[k].name.element@ == ast_components@[k].element.name.element@
                        && components@[k].optional == ast_components@[k].element.optional
                        && (components@[k].default_value is Some <==> ast_components@[k].element.default_value is Some),
                decreases ast_components@.len() - i,
            {
                let c = &ast_components[i];
                if component_named(&components, &c.element.name.element) {
                    return Err(ast_error("component named twice", c.loc));
                }
                proof {
                    broadcast use vstd::std_specs::vec::axiom_vec_index_decreases;

                    assert(decreases_to!(structure.element.components => structure.element.components[i as int]));
                    assert(decreases_to!(*structure => structure.element));
                    assert(ast.element->Structure_0 == *structure);
                    assert(decreases_to!(ast.element => ast.element->Structure_0));
                    assert(decreases_to!(*ast => ast.element));
                    assert(decreases_to!(*ast => structure.element.components[i as int]));
                }
                let component_type = match parse_type(parser, &c.element.ty) {
                    Ok(t) => t,
                    Err(e) => {
                        return Err(e);
                    },
                };
                let default_value = match &c.element.default_value {
                    Some(d) => {
                        let resolved = match resolve(parser.context, &component_type, d.loc) {
                            Ok(rt) => rt,
                            Err(e) => {
                                return Err(e);
                            },
                        };
                        match parse_value(parser, d, &resolved) {
                            Ok(v) => Some(Box::new(v)),
                            Err(e) => {
                                return Err(e);
                            },
                        }
                    },
                    None => None,
                };
                let ghost prev = components@;
                components.push(StructureComponent {
                    name: AstElement::new(c.element.name.element.clone(), c.element.name.loc),
                    component_type: Box::new(component_type),
                    optional: c.element.optional,
                    default_value,
                });
                proof {
                    assert forall|a: int, b: int| 0 <= a < b < components@.len() implies (#[trigger] components@[a]).name.element@ != (#[trigger] components@[b]).name.element@ by {
                        if b == components@.len() - 1 {
                            assert(components@[a] == prev[a]);
                        } else {
                            assert(components@[a] == prev[a] && components@[b] == prev[b]);
                        }
                    }
                }
                i = i + 1;
            }
            Ok(BuiltinType::Structure(Structure { ty: structure.element.kind, components }))
        },
        AstBuiltinType::StructureOf(of) => parse_structure_of(parser, of),
        AstBuiltinType::Choice(choice) => {
            let ast_alternatives = &choice.element;
            let mut alternatives: Vec<ChoiceAlternative> = Vec::new();
            let mut i: usize = 0;
            while i < ast_alternatives.len()
                invariant
                    *ast_alternatives == choice.element,
                    ast.element == AstBuiltinType::Choice(*choice),
                    i <= ast_alternatives@.len(),
                    alternatives@.len() == i,
                    forall|k: int| 0 <= k < i ==> (#[trigger] alternatives@[k]).name.element@ == ast_alternatives@[k].element.name.element@,
                    forall|a: int, b: int| 0 <= a < b < alternatives@.len() ==> (#[trigger] alternatives@[a]).name.element@ != (#[trigger] alternatives@[b]).name.element@,
                decreases ast_alternatives@.len() - i,
            {
                let a = &ast_alternatives[i];
                if alternative_named(&alternatives, &a.element.name.element) {
                    return Err(ast_error("alternative named twice", a.loc));
                }
                proof {
                    broadcast use vstd::std_specs::vec::axiom_vec_index_decreases;

                    assert(decreases_to!(choice.element => choice.element[i as int]));
                    assert(decreases_to!(*choice => choice.element));
                    assert(ast.element->Choice_0 == *choice);
                    assert(decreases_to!(ast.element => ast.element->Choice_0));
                    assert(decreases_to!(*ast => ast.element));
                    assert(decreases_to!(*ast => choice.element[i as int]));
                }
                let alternative_type = match parse_type(parser, &a.element.ty) {
                    Ok(t) => t,
                    Err(e) => {
                        return Err(e);
                    },
                };
                let ghost prev = alternatives@;
                alternatives.push(ChoiceAlternative {
                    name: AstElement::new(a.element.name.element.clone(), a.element.name.loc),
                    alternative_type: Box::new(alternative_type),
                });
                proof {
                    assert forall|a: int, b: int| 0 <= a < b < alternatives@.len() implies (#[trigger] alternatives@[a]).name.element@ != (#[trigger] alternatives@[b]).name.element@ by {
                        if b == alternatives@.len() - 1 {
                            assert(alternatives@[a] == prev[a]);
                        } else {
                            assert(alternatives@[a] == prev[a] && alternatives@[b] == prev[b]);
                        }
                    }
                }
                i = i + 1;
            }
            Ok(BuiltinType::Choice(Choice { alternatives }))
        },
    }
}

} // verus!
