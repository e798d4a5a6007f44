//! Lowering of subtype constraints, and their merge into registered types.
use vstd::prelude::*;
use crate::ast::{
    AstComponentConstraint, AstConstrainedType, AstConstraint, AstConstraintOrSizeConstraint,
    AstInnerTypeConstraints, AstPresenceConstraint, AstRangeLowerBound, AstRangeUpperBound,
    AstStructureOf, AstSubtypeElement, AstType, AstTypeAssignment, AstUntaggedType,
    AstBuiltinType, AstValue,
};
use crate::error::{ast_error, AstElement, Error};
use crate::module::QualifiedIdentifier;
use crate::context::index_of;
use crate::type_parser::{ast_type_body, parse_type, resolve, type_lowered, AstParser};
use crate::types::{
    BuiltinType, ComponentConstraint, Constraint, ContentsConstraint, InnerTypeConstraints,
    NamedConstraint, Presence, RangeLowerBound, RangeUpperBound, ResolvedType, SubtypeElement,
    TaggedType, UntaggedType, ValueRange,
};
use crate::value_parser::{always_lowers, constraint_of, parse_value, value_lowered};

verus! {

broadcast use vstd::std_specs::vec::axiom_vec_index_decreases, vstd::std_specs::vec::axiom_vec_decreases_to_view;

/// Whether the constraint being lowered stands inside a SIZE.
#[derive(Debug, Clone, Copy, PartialEq, Eq, Structural)]
pub enum ConstraintContext {
    Contextless,
    WithinSize,
}

/// No subtype element anywhere in the constraint is a SIZE.
pub open spec fn size_free(c: Constraint) -> bool
    decreases c,
{
    forall|i: int, j: int|
        #![trigger c.0@[i]@[j]]
        0 <= i < c.0@.len() && 0 <= j < c.0@[i]@.len() ==> element_size_free(c.0@[i]@[j].element)
}

/// The element is not a SIZE and holds none.
pub open spec fn element_size_free(e: SubtypeElement) -> bool
    decreases e,
{
    match e {
        SubtypeElement::Size(_) => false,
        SubtypeElement::InnerType(itc) => forall|k: int|
            #![trigger itc.components@[k]]
            0 <= k < itc.components@.len() ==> (itc.components@[k].constraint.value matches Some(cc)
                ==> size_free(cc)),
        _ => true,
    }
}


/// Every SIZE in the constraint, at any depth, holds no further SIZE.
pub open spec fn sizes_flat(c: Constraint) -> bool
    decreases c,
{
    forall|i: int, j: int|
        #![trigger c.0@[i]@[j]]
        0 <= i < c.0@.len() && 0 <= j < c.0@[i]@.len() ==> element_sizes_flat(c.0@[i]@[j].element)
}

pub open spec fn element_sizes_flat(e: SubtypeElement) -> bool
    decreases e,
{
    match e {
        SubtypeElement::Size(inner) => size_free(inner),
        SubtypeElement::InnerType(itc) => forall|k: int|
            #![trigger itc.components@[k]]
            0 <= k < itc.components@.len() ==> (itc.components@[k].constraint.value matches Some(cc)
                ==> sizes_flat(cc)),
        _ => true,
    }
}

/// The element sets of a syntax-tree constraint hold a SIZE directly.
pub open spec fn ast_has_direct_size(c: AstConstraint) -> bool {
    exists|i: int, j: int|
        #![trigger c.0@[i].element@[j]]
        0 <= i < c.0@.len() && 0 <= j < c.0@[i].element@.len() && c.0@[i].element@[j].element is SizeConstraint
}

/// The syntax-tree constraint holds, directly, a contents constraint.
pub open spec fn ast_has_direct_contents(c: AstConstraint) -> bool {
    exists|i: int, j: int|
        #![trigger c.0@[i].element@[j]]
        0 <= i < c.0@.len() && 0 <= j < c.0@[i].element@.len() && c.0@[i].element@[j].element is ContentsConstraint
}

/// The element as lowered in the given context: flat SIZEs, and no SIZE at all inside one.
pub open spec fn element_fits(e: SubtypeElement, ctx: ConstraintContext) -> bool {
    element_sizes_flat(e) && (ctx == ConstraintContext::WithinSize ==> element_size_free(e))
}

/// The lowered lower bound matches the written one.
pub open spec fn lower_bound_lowered(a: AstRangeLowerBound, t: BuiltinType, c: Option<Constraint>, l: RangeLowerBound) -> bool {
    match a {
        AstRangeLowerBound::Min => l is Min,
        AstRangeLowerBound::Value(v) => l matches RangeLowerBound::Eq(x) && value_lowered(v, t, c, x),
        AstRangeLowerBound::GtValue(v) => l matches RangeLowerBound::Gt(x) && value_lowered(v, t, c, x),
    }
}

/// The lowered upper bound matches the written one.
pub open spec fn upper_bound_lowered(a: AstRangeUpperBound, t: BuiltinType, c: Option<Constraint>, u: RangeUpperBound) -> bool {
    match a {
        AstRangeUpperBound::Max => u is Max,
        AstRangeUpperBound::Value(v) => u matches RangeUpperBound::Eq(x) && value_lowered(v, t, c, x),
        AstRangeUpperBound::LtValue(v) => u matches RangeUpperBound::Lt(x) && value_lowered(v, t, c, x),
    }
}

/// The lowered element is of the kind written, with its parts lowered against the
/// constrained type `t` with constraint `c`.
pub open spec fn element_lowered(a: AstSubtypeElement, t: BuiltinType, c: Option<Constraint>, e: SubtypeElement) -> bool
    decreases a,
{
    match a {
        AstSubtypeElement::SingleValueConstraint(v) => e matches SubtypeElement::SingleValue(x) && value_lowered(v, t, c, x),
        AstSubtypeElement::ValueRangeConstraint(r) => e matches SubtypeElement::ValueRange(vr)
            && lower_bound_lowered(r.element.lower.element, t, c, vr.lower)
            && upper_bound_lowered(r.element.upper.element, t, c, vr.upper),
        AstSubtypeElement::SizeConstraint(cc) => e matches SubtypeElement::Size(inner) && constraint_lowered(cc.element, t, c, inner),
        AstSubtypeElement::InnerTypeConstraints(itc) => e matches SubtypeElement::InnerType(i) && i.kind == itc.element.kind
            && i.components@.len() == itc.element.components@.len() && forall|k: int|
            #![trigger i.components@[k]]
            0 <= k < i.components@.len() ==> i.components@[k].name.element@ == itc.element.components@[k].element.name.element@
                && i.components@[k].constraint.presence == given_presence(itc.element.components@[k].element.constraint.element)
                && (i.components@[k].constraint.value is Some <==> !(itc.element.components@[k].element.constraint.element is PresenceConstraint)),
        AstSubtypeElement::ContentsConstraint(ty) => e matches SubtypeElement::Contents(cc) && type_lowered(ty.element, cc.ty),
    }
}

/// `out` holds the lowering of the written constraint `a`, element set by element set and
/// element by element, each at its written place.
pub open spec fn constraint_lowered(a: AstConstraint, t: BuiltinType, c: Option<Constraint>, out: Constraint) -> bool
    decreases a,
{
    &&& out.0@.len() == a.0@.len()
    &&& forall|i: int| #![trigger out.0@[i]] 0 <= i < out.0@.len() ==> out.0@[i]@.len() == a.0@[i].element@.len()
    &&& forall|i: int, j: int|
        #![trigger out.0@[i]@[j]]
        0 <= i < out.0@.len() && 0 <= j < out.0@[i]@.len() ==> out.0@[i]@[j].loc == a.0@[i].element@[j].loc
            && element_lowered(a.0@[i].element@[j].element, t, c, out.0@[i]@[j].element)
}

/// A single value or a value range whose values all lower without fail.
pub open spec fn plain_element(e: AstSubtypeElement) -> bool {
    match e {
        AstSubtypeElement::SingleValueConstraint(v) => always_lowers(v.element),
        AstSubtypeElement::ValueRangeConstraint(r) => {
            &&& match r.element.lower.element {
                AstRangeLowerBound::Min => true,
                AstRangeLowerBound::Value(v) => always_lowers(v.element),
                AstRangeLowerBound::GtValue(v) => always_lowers(v.element),
            }
            &&& match r.element.upper.element {
                AstRangeUpperBound::Max => true,
                AstRangeUpperBound::Value(v) => always_lowers(v.element),
                AstRangeUpperBound::LtValue(v) => always_lowers(v.element),
            }
        },
        _ => false,
    }
}

/// Every element of the constraint is a plain single value or value range.
pub open spec fn plain_constraint(c: AstConstraint) -> bool {
    forall|i: int, j: int|
        #![trigger c.0@[i].element@[j]]
        0 <= i < c.0@.len() && 0 <= j < c.0@[i].element@.len() ==> plain_element(c.0@[i].element@[j].element)
}

/// A type that a contents constraint may apply to.
pub open spec fn is_string_container(t: BuiltinType) -> bool {
    t is BitString || t is OctetString
}

/// Lowers the element sets of a constraint against the constrained type.
pub fn parse_constraint(
    parser: &AstParser,
    constraint: &AstElement<AstConstraint>,
    constrained_type: &ResolvedType,
    ctx: ConstraintContext,
) -> (r: Result<Constraint, Error>)
    ensures
        r matches Ok(c) ==> sizes_flat(c),
        r matches Ok(c) ==> (ctx == ConstraintContext::WithinSize ==> size_free(c)),
        r matches Ok(c) ==> c.0@.len() == constraint.element.0@.len(),
        ctx == ConstraintContext::WithinSize && ast_has_direct_size(constraint.element) ==> r is Err,
        !is_string_container(*constrained_type.ty) && ast_has_direct_contents(constraint.element) ==> r is Err,
        plain_constraint(constraint.element) ==> r is Ok,
        r matches Err(e) ==> e.is_ast(),
        r matches Ok(c) ==> constraint_lowered(constraint.element, *constrained_type.ty, constraint_of(constrained_type.constraint), c),
    decreases constraint,
{
    let element_sets = &constraint.element.0;
    let mut out: Vec<Vec<AstElement<SubtypeElement>>> = Vec::new();
    let mut i: usize = 0;
    while i < element_sets.len()
        invariant
            *element_sets == constraint.element.0,
            i <= element_sets@.len(),
            out@.len() == i,
            forall|a: int, b: int|
                #![trigger out@[a]@[b]]
                0 <= a < i && 0 <= b < out@[a]@.len() ==> element_fits(out@[a]@[b].element, ctx),
            forall|a: int| #![trigger out@[a]] 0 <= a < i ==> out@[a]@.len() == element_sets@[a].element@.len(),
            forall|a: int, b: int|
                #![trigger out@[a]@[b]]
                0 <= a < i && 0 <= b < out@[a]@.len() ==> out@[a]@[b].loc == element_sets@[a].element@[b].loc
                    && element_lowered(element_sets@[a].element@[b].element, *constrained_type.ty, constraint_of(constrained_type.constraint), out@[a]@[b].element),
            forall|a: int, b: int|
                #![trigger element_sets@[a].element@[b]]
                0 <= a < i && 0 <= b < element_sets@[a].element@.len() ==> !(ctx == ConstraintContext::WithinSize
                    && element_sets@[a].element@[b].element is SizeConstraint) && !(!is_string_container(*constrained_type.ty)
                    && element_sets@[a].element@[b].element is ContentsConstraint),
        decreases element_sets@.len() - i,
    {
        let element_set = &element_sets[i].element;
        let mut elements: Vec<AstElement<SubtypeElement>> = Vec::new();
        let mut j: usize = 0;
        while j < element_set.len()
            invariant
                *element_sets == constraint.element.0,
                i < element_sets@.len(),
                *element_set == element_sets@[i as int].element,
                j <= element_set@.len(),
                forall|b: int| #![trigger elements@[b]] 0 <= b < elements@.len() ==> element_fits(elements@[b].element, ctx),
                elements@.len() == j,
                forall|b: int| #![trigger elements@[b]] 0 <= b < elements@.len() ==> elements@[b].loc == element_set@[b].loc
                    && element_lowered(element_set@[b].element, *constrained_type.ty, constraint_of(constrained_type.constraint), elements@[b].element),
                forall|b: int|
                    #![trigger element_set@[b]]
                    0 <= b < j ==> !(ctx == ConstraintContext::WithinSize && element_set@[b].element is SizeConstraint)
                        && !(!is_string_container(*constrained_type.ty) && element_set@[b].element is ContentsConstraint),
            decreases element_set@.len() - j,
        {
            let element = &element_set[j];
            proof {
                assert(decreases_to!(constraint.element.0 => constraint.element.0[i as int]));
                assert(decreases_to!(constraint.element.0[i as int].element => constraint.element.0[i as int].element[j as int]));
            }
            let lowered = match parse_subtype_element(parser, element, constrained_type, ctx) {
                Ok(e) => e,
                Err(e) => {
                    assert(constraint.element.0@[i as int].element@[j as int] == *element);
                    return Err(e);
                },
            };
            elements.push(AstElement::new(lowered, element.loc));
            j = j + 1;
        }
        let ghost prev = out@;
        out.push(elements);
        proof {
            assert(out@[i as int] == elements);
            assert forall|a: int| #![trigger out@[a]] 0 <= a < i ==> out@[a] == prev[a] by {}
        }
        i = i + 1;
    }
    let c = Constraint(out);
    assert(constraint_lowered(constraint.element, *constrained_type.ty, constraint_of(constrained_type.constraint), c));
    Ok(c)
}

/// Lowers one subtype element. A SIZE inside a SIZE is refused, and so is a contents
/// constraint on anything but a BIT STRING or OCTET STRING.
pub fn parse_subtype_element(
    parser: &AstParser,
    ast_subtype_element: &AstElement<AstSubtypeElement>,
    constrained_type: &ResolvedType,
    ctx: ConstraintContext,
) -> (r: Result<SubtypeElement, Error>)
    ensures
        r matches Ok(e) ==> element_fits(e, ctx),
        ctx == ConstraintContext::WithinSize && ast_subtype_element.element is SizeConstraint ==> (r matches Err(e)
            && e.loc == ast_subtype_element.loc),
        !is_string_container(*constrained_type.ty) && ast_subtype_element.element is ContentsConstraint ==> r is Err,
        plain_element(ast_subtype_element.element) ==> r is Ok,
        r matches Ok(e) ==> element_lowered(ast_subtype_element.element, *constrained_type.ty, constraint_of(constrained_type.constraint), e),
        r matches Err(e) ==> e.is_ast(),
    decreases ast_subtype_element,
{
    match &ast_subtype_element.element {
        AstSubtypeElement::SingleValueConstraint(single_value) => {
            match parse_value(parser, single_value, constrained_type) {
                Ok(v) => Ok(SubtypeElement::SingleValue(v)),
                Err(e) => Err(e),
            }
        },
        AstSubtypeElement::ValueRangeConstraint(value_range) => {
            let lower = match &value_range.element.lower.element {
                AstRangeLowerBound::Min => RangeLowerBound::Min,
                AstRangeLowerBound::Value(v) => match parse_value(parser, v, constrained_type) {
                    Ok(v) => RangeLowerBound::Eq(v),
                    Err(e) => {
                        return Err(e);
                    },
                },
                AstRangeLowerBound::GtValue(v) => match parse_value(parser, v, constrained_type) {
                    Ok(v) => RangeLowerBound::Gt(v),
                    Err(e) => {
                        return Err(e);
                    },
                },
            };
            let upper = match &value_range.element.upper.element {
                AstRangeUpperBound::Max => RangeUpperBound::Max,
                AstRangeUpperBound::Value(v) => match parse_value(parser, v, constrained_type) {
                    Ok(v) => RangeUpperBound::Eq(v),
                    Err(e) => {
                        return Err(e);
                    },
                },
                AstRangeUpperBound::LtValue(v) => match parse_value(parser, v, constrained_type) {
                    Ok(v) => RangeUpperBound::Lt(v),
                    Err(e) => {
                        return Err(e);
                    },
                },
            };
            Ok(SubtypeElement::ValueRange(ValueRange { lower, upper }))
        },
        AstSubtypeElement::SizeConstraint(size_constraint) => {
            if ctx == ConstraintContext::WithinSize {
                return Err(ast_error("SIZE constraints cannot be nested", ast_subtype_element.loc));
            }
            match parse_constraint(parser, size_constraint, constrained_type, ConstraintContext::WithinSize) {
                Ok(c) => Ok(SubtypeElement::Size(c)),
                Err(e) => Err(e),
            }
        },
        AstSubtypeElement::InnerTypeConstraints(itc) => {
            match parse_inner_type_constraints(parser, itc, constrained_type, ctx) {
                Ok(c) => Ok(SubtypeElement::InnerType(c)),
                Err(e) => Err(e),
            }
        },
        AstSubtypeElement::ContentsConstraint(ty) => {
            match constrained_type.ty {
                BuiltinType::BitString(_) | BuiltinType::OctetString => {},
                _ => {
                    return Err(
                        ast_error("CONTAINING can only constrain a BIT STRING or OCTET STRING", ast_subtype_element.loc),
                    );
                },
            }
            match parse_type(parser, ty) {
                Ok(t) => Ok(SubtypeElement::Contents(ContentsConstraint { ty: t })),
                Err(e) => Err(e),
            }
        },
    }
}

pub fn parse_presence(presence: &AstElement<AstPresenceConstraint>) -> (r: Presence)
    ensures
        r == presence_of(presence.element),
        presence.element == AstPresenceConstraint::PresencePresent ==> r == Presence::Present,
        presence.element == AstPresenceConstraint::PresenceAbsent ==> r == Presence::Absent,
        presence.element == AstPresenceConstraint::PresenceOptional ==> r == Presence::Optional,
{
    match presence.element {
        AstPresenceConstraint::PresencePresent => Presence::Present,
        AstPresenceConstraint::PresenceAbsent => Presence::Absent,
        AstPresenceConstraint::PresenceOptional => Presence::Optional,
    }
}

/// Every member of the given name has a builtin type.
pub open spec fn members_builtin(t: BuiltinType, name: Seq<char>) -> bool {
    match t {
        BuiltinType::Structure(s) => forall|i: int| #![trigger s.components@[i]] 0 <= i < s.components@.len()
            && s.components@[i].name.element@ == name ==> s.components@[i].component_type.ty is BuiltinType,
        BuiltinType::Choice(c) => forall|i: int| #![trigger c.alternatives@[i]] 0 <= i < c.alternatives@.len()
            && c.alternatives@[i].name.element@ == name ==> c.alternatives@[i].alternative_type.ty is BuiltinType,
        _ => true,
    }
}

/// The presence marker that a component constraint gives, if any.
pub open spec fn given_presence(c: AstComponentConstraint) -> Option<Presence> {
    match c {
        AstComponentConstraint::Constraint(_) => None,
        AstComponentConstraint::PresenceConstraint(p) => Some(presence_of(p.element)),
        AstComponentConstraint::ValuedPresenceConstraint(_, p) => Some(presence_of(p.element)),
    }
}

pub open spec fn presence_of(p: AstPresenceConstraint) -> Presence {
    match p {
        AstPresenceConstraint::PresencePresent => Presence::Present,
        AstPresenceConstraint::PresenceAbsent => Presence::Absent,
        AstPresenceConstraint::PresenceOptional => Presence::Optional,
    }
}

/// A presence marker alone, or a plain constraint.
pub open spec fn component_constraint_plain(c: AstComponentConstraint) -> bool {
    match c {
        AstComponentConstraint::Constraint(cc) => plain_constraint(cc.element),
        AstComponentConstraint::PresenceConstraint(_) => true,
        AstComponentConstraint::ValuedPresenceConstraint(cc, _) => plain_constraint(cc.element),
    }
}

/// The named components of a structure or the alternatives of a CHOICE, with their types.
pub open spec fn has_member(t: BuiltinType, name: Seq<char>) -> bool {
    match t {
        BuiltinType::Structure(s) => exists|i: int| 0 <= i < s.components@.len() && (#[trigger] s.components@[i]).name.element@ == name,
        BuiltinType::Choice(c) => exists|i: int| 0 <= i < c.alternatives@.len() && (#[trigger] c.alternatives@[i]).name.element@ == name,
        _ => false,
    }
}

/// The type of the member of the given name, first match, if the type has one.
fn find_member<'a>(t: &'a BuiltinType, name: &String) -> (r: Option<&'a TaggedType>)
    ensures
        r is Some <==> has_member(*t, name@),
        members_builtin(*t, name@) ==> (r matches Some(m) ==> m.ty is BuiltinType),
{
    match t {
        BuiltinType::Structure(s) => {
            let mut i: usize = 0;
            while i < s.components.len()
                invariant
                    *t == BuiltinType::Structure(*s),
                    i <= s.components@.len(),
                    forall|k: int| 0 <= k < i ==> (#[trigger] s.components@[k]).name.element@ != name@,
                decreases s.components@.len() - i,
            {
                if s.components[i].name.element == *name {
                    assert(s.components@[i as int].name.element@ == name@);
                    return Some(&*s.components[i].component_type);
                }
                i = i + 1;
            }
            None
        },
        BuiltinType::Choice(c) => {
            let mut i: usize = 0;
            while i < c.alternatives.len()
                invariant
                    *t == BuiltinType::Choice(*c),
                    i <= c.alternatives@.len(),
                    forall|k: int| 0 <= k < i ==> (#[trigger] c.alternatives@[k]).name.element@ != name@,
                decreases c.alternatives@.len() - i,
            {
                if c.alternatives[i].name.element == *name {
                    assert(c.alternatives@[i as int].name.element@ == name@);
                    return Some(&*c.alternatives[i].alternative_type);
                }
                i = i + 1;
            }
            None
        },
        _ => None,
    }
}

/// Lowers `WITH COMPONENT(S) ...` against a SEQUENCE, SET or CHOICE type; each named
/// component must exist, and its constraint is lowered against the component's type.
pub fn parse_inner_type_constraints(
    parser: &AstParser,
    itc: &AstElement<AstInnerTypeConstraints>,
    constrained_type: &ResolvedType,
    ctx: ConstraintContext,
) -> (r: Result<InnerTypeConstraints, Error>)
    ensures
        !(constrained_type.ty is Structure || constrained_type.ty is Choice) ==> r is Err,
        ((constrained_type.ty is Structure || constrained_type.ty is Choice) && forall|k: int|
            #![trigger itc.element.components@[k]]
            0 <= k < itc.element.components@.len() ==> has_member(*constrained_type.ty, itc.element.components@[k].element.name.element@)
                && members_builtin(*constrained_type.ty, itc.element.components@[k].element.name.element@)
                && component_constraint_plain(itc.element.components@[k].element.constraint.element)) ==> r is Ok,
        r matches Ok(c) ==> forall|k: int|
            #![trigger c.components@[k]]
            0 <= k < c.components@.len() ==> c.components@[k].constraint.presence == given_presence(itc.element.components@[k].element.constraint.element)
                && (c.components@[k].constraint.value is Some <==> !(itc.element.components@[k].element.constraint.element is PresenceConstraint)),
        (exists|k: int| 0 <= k < itc.element.components@.len()
            && !has_member(*constrained_type.ty, (#[trigger] itc.element.components@[k]).element.name.element@)) ==> r is Err,
        r matches Ok(c) ==> c.kind == itc.element.kind && c.components@.len() == itc.element.components@.len(),
        forall|k: int|
            #![trigger itc.element.components@[k]]
            (constrained_type.ty is Structure || constrained_type.ty is Choice) && 0 <= k < itc.element.components@.len()
                && !has_member(*constrained_type.ty, itc.element.components@[k].element.name.element@)
                && (forall|j: int| 0 <= j < k ==> has_member(*constrained_type.ty, (#[trigger] itc.element.components@[j]).element.name.element@))
                ==> (r matches Err(e) && e.loc == itc.element.components@[k].element.name.loc),
        r matches Ok(c) ==> forall|k: int|
            #![trigger c.components@[k]]
            0 <= k < c.components@.len() ==> c.components@[k].name.element@ == itc.element.components@[k].element.name.element@
                && (c.components@[k].constraint.value matches Some(cc) ==> sizes_flat(cc)
                && (ctx == ConstraintContext::WithinSize ==> size_free(cc))),
        r matches Err(e) ==> e.is_ast(),
    decreases itc,
{
    match constrained_type.ty {
        BuiltinType::Structure(_) | BuiltinType::Choice(_) => {},
        _ => {
            return Err(ast_error("inner type constraints apply only to SEQUENCE, SET or CHOICE types", itc.loc));
        },
    }
    let ast_components = &itc.element.components;
    let mut n: usize = 0;
    while n < ast_components.len()
        invariant
            *ast_components == itc.element.components,
            n <= ast_components@.len(),
            forall|k: int| 0 <= k < n ==> has_member(*constrained_type.ty, (#[trigger] ast_components@[k]).element.name.element@),
        decreases ast_components@.len() - n,
    {
        if find_member(constrained_type.ty, &ast_components[n].element.name.element).is_none() {
            return Err(
                ast_error("constrained type does not contain a component of this name", ast_components[n].element.name.loc),
            );
        }
        n = n + 1;
    }
    let mut components: Vec<NamedConstraint> = Vec::new();
    let mut i: usize = 0;
    while i < ast_components.len()
        invariant
            *ast_components == itc.element.components,
            i <= ast_components@.len(),
            forall|k: int| 0 <= k < ast_components@.len() ==> has_member(*constrained_type.ty, (#[trigger] ast_components@[k]).element.name.element@),
            components@.len() == i,
            forall|k: int| 0 <= k < i ==> has_member(*constrained_type.ty, (#[trigger] ast_components@[k]).element.name.element@),
            forall|k: int|
                #![trigger components@[k]]
                0 <= k < i ==> components@[k].name.element@ == ast_components@[k].element.name.element@
                    && (components@[k].constraint.value matches Some(cc) ==> sizes_flat(cc)
                    && (ctx == ConstraintContext::WithinSize ==> size_free(cc)))
                    && components@[k].constraint.presence == given_presence(ast_components@[k].element.constraint.element)
                    && (components@[k].constraint.value is Some <==> !(ast_components@[k].element.constraint.element is PresenceConstraint)),
        decreases ast_components@.len() - i,
    {
        let ast_component = &ast_components[i];
        assert(ast_components@[i as int] == *ast_component);
        proof {
            assert(decreases_to!(itc.element.components => itc.element.components[i as int]));
        }
        let member = match find_member(constrained_type.ty, &ast_component.element.name.element) {
            Some(m) => m,
            None => {
                return Err(
                    ast_error("constrained type does not contain a component of this name", ast_component.element.name.loc),
                );
            },
        };
        let component_type = match resolve(parser.context, member, ast_component.loc) {
            Ok(t) => t,
            Err(e) => {
                return Err(e);
            },
        };
        let (value, presence) = match &ast_component.element.constraint.element {
            AstComponentConstraint::Constraint(c) => match parse_constraint(parser, c, &component_type, ctx) {
                Ok(c) => (Some(c), None),
                Err(e) => {
                    return Err(e);
                },
            },
            AstComponentConstraint::PresenceConstraint(p) => (None, Some(parse_presence(p))),
            AstComponentConstraint::ValuedPresenceConstraint(c, p) => match parse_constraint(parser, c, &component_type, ctx) {
                Ok(c) => (Some(c), Some(parse_presence(p))),
                Err(e) => {
                    return Err(e);
                },
            },
        };
        components.push(NamedConstraint {
            name: AstElement::new(ast_component.element.name.element.clone(), ast_component.element.name.loc),
            constraint: ComponentConstraint { value, presence },
        });
        i = i + 1;
    }
    proof {
        if ast_components@.len() > 0 {
            assert(has_member(*constrained_type.ty, ast_components@[0].element.name.element@));
        }
    }
    Ok(InnerTypeConstraints { kind: itc.element.kind, components })
}


/// Constraints lowered for a type assignment, waiting to be merged into the registered
/// type: the constraint of the type itself, and those of its components by name.
#[derive(Debug)]
pub struct PendingConstraint {
    pub constraint: Option<Constraint>,
    pub component_constraints: Vec<(String, PendingConstraint)>,
}

/// The constraint that a `SEQUENCE OF` or `SET OF` writes is plain, if it writes one.
pub open spec fn structure_of_constraint_plain(of: AstStructureOf) -> bool {
    of.constraint matches Some(c) ==> match c.element {
        AstConstraintOrSizeConstraint::Constraint(x) => plain_constraint(x.element),
        AstConstraintOrSizeConstraint::SizeConstraint(x) => plain_constraint(x.element),
    }
}

/// `out` is one element set holding one SIZE, placed at `x`, whose constraint is the
/// lowering of `x`.
pub open spec fn size_wrapped(out: Constraint, x: AstElement<AstConstraint>, t: BuiltinType, c: Option<Constraint>) -> bool {
    &&& out.0@.len() == 1
    &&& out.0@[0]@.len() == 1
    &&& out.0@[0]@[0].loc == x.loc
    &&& out.0@[0]@[0].element matches SubtypeElement::Size(inner) && constraint_lowered(x.element, t, c, inner)
}

/// `pc` is the lowering of the constraint written on a `SEQUENCE OF` or `SET OF`; a bare
/// SIZE becomes one element set holding one SIZE, placed where the SIZE is written.
pub open spec fn of_constraint_lowered(of: AstStructureOf, t: BuiltinType, c: Option<Constraint>, pc: Option<Constraint>) -> bool {
    match of.constraint {
        None => pc is None,
        Some(w) => match w.element {
            AstConstraintOrSizeConstraint::Constraint(x) => pc matches Some(out) && constraint_lowered(x.element, t, c, out),
            AstConstraintOrSizeConstraint::SizeConstraint(x) => pc matches Some(out) && size_wrapped(out, x, t, c),
        },
    }
}

/// `pc` is the lowering of the constraint written on the constrained type, if any.
pub open spec fn written_constraint_lowered(a: AstConstrainedType, t: BuiltinType, c: Option<Constraint>, pc: Option<Constraint>) -> bool {
    match a {
        AstConstrainedType::Suffixed(s) => match s.element.constraint {
            None => pc is None,
            Some(x) => pc matches Some(out) && constraint_lowered(x.element, t, c, out),
        },
        AstConstrainedType::TypeWithConstraint(of) => of_constraint_lowered(of.element, t, c, pc),
    }
}

/// The constrained type writes a constraint.
pub open spec fn ast_has_constraint(a: AstConstrainedType) -> bool {
    match a {
        AstConstrainedType::Suffixed(s) => s.element.constraint is Some,
        AstConstrainedType::TypeWithConstraint(t) => t.element.constraint is Some,
    }
}

/// The constraint written on the constrained type, if any, is plain.
pub open spec fn ast_constraint_plain(a: AstConstrainedType) -> bool {
    match a {
        AstConstrainedType::Suffixed(s) => s.element.constraint matches Some(c) ==> plain_constraint(c.element),
        AstConstrainedType::TypeWithConstraint(t) => structure_of_constraint_plain(t.element),
    }
}

/// Names of the members of an inline SEQUENCE, SET or CHOICE, in the order written;
/// empty for any other type.
pub open spec fn inline_member_names(a: AstConstrainedType) -> Seq<Seq<char>> {
    match a {
        AstConstrainedType::Suffixed(s) => match s.element.ty.element {
            AstUntaggedType::BuiltinType(b) => match b.element {
                AstBuiltinType::Structure(st) => ast_component_names(st.element.components@),
                AstBuiltinType::Choice(ch) => ast_alternative_names(ch.element@),
                _ => Seq::empty(),
            },
            _ => Seq::empty(),
        },
        _ => Seq::empty(),
    }
}

/// Names of the component entries of a pending constraint, in order.
pub open spec fn pending_names(p: PendingConstraint) -> Seq<Seq<char>> {
    entry_names(p.component_constraints@)
}

pub open spec fn entry_names(e: Seq<(String, PendingConstraint)>) -> Seq<Seq<char>> {
    Seq::new(e.len(), |k: int| e[k].0@)
}

pub open spec fn ast_component_names(c: Seq<AstElement<crate::ast::AstStructureComponent>>) -> Seq<Seq<char>> {
    Seq::new(c.len(), |k: int| c[k].element.name.element@)
}

pub open spec fn ast_alternative_names(c: Seq<AstElement<crate::ast::AstChoiceAlternative>>) -> Seq<Seq<char>> {
    Seq::new(c.len(), |k: int| c[k].element.name.element@)
}

/// The constraint written on a `SEQUENCE OF` or `SET OF`; a bare `SIZE (...)` becomes a
/// constraint of one element set holding that SIZE.
pub fn parse_type_with_constraint(
    parser: &AstParser,
    of: &AstElement<AstStructureOf>,
    constrained_type: &ResolvedType,
) -> (r: Result<Option<Constraint>, Error>)
    ensures
        of.element.constraint is None ==> (r matches Ok(c) && c is None),
        of.element.constraint is Some ==> (r matches Ok(c) ==> c is Some),
        structure_of_constraint_plain(of.element) ==> r is Ok,
        r matches Ok(pc) ==> of_constraint_lowered(of.element, *constrained_type.ty, constraint_of(constrained_type.constraint), pc),
        r matches Ok(Some(c)) ==> sizes_flat(c),
        r matches Ok(Some(c)) ==> (of.element.constraint matches Some(oc) ==> (oc.element is SizeConstraint
            ==> c.0@.len() == 1 && c.0@[0]@.len() == 1 && c.0@[0]@[0].element is Size)),
        r matches Err(e) ==> e.is_ast(),
    decreases of,
{
    match &of.element.constraint {
        None => Ok(None),
        Some(constraint) => match &constraint.element {
            AstConstraintOrSizeConstraint::Constraint(c) => {
                match parse_constraint(parser, c, constrained_type, ConstraintContext::Contextless) {
                    Ok(c) => Ok(Some(c)),
                    Err(e) => Err(e),
                }
            },
            AstConstraintOrSizeConstraint::SizeConstraint(size) => {
                match parse_constraint(parser, size, constrained_type, ConstraintContext::WithinSize) {
                    Ok(inner) => {
                        let mut set: Vec<AstElement<SubtypeElement>> = Vec::new();
                        set.push(AstElement::new(SubtypeElement::Size(inner), size.loc));
                        let mut sets: Vec<Vec<AstElement<SubtypeElement>>> = Vec::new();
                        sets.push(set);
                        let c = Constraint(sets);
                        assert(element_sizes_flat(c.0@[0]@[0].element));
                        Ok(Some(c))
                    },
                    Err(e) => Err(e),
                }
            },
        },
    }
}

/// Lowers the constraints that a type assignment writes: on the type itself and, for an
/// inline SEQUENCE, SET or CHOICE, on each of its components.
pub fn parse_constrained_type(
    parser: &AstParser,
    ast_constrained_type: &AstElement<AstConstrainedType>,
    constrained_type: &ResolvedType,
) -> (r: Result<PendingConstraint, Error>)
    ensures
        r matches Ok(p) ==> (p.constraint matches Some(c) ==> sizes_flat(c)),
        r matches Ok(p) ==> (p.constraint is Some <==> ast_has_constraint(ast_constrained_type.element)),
        r matches Ok(p) ==> pending_names(p) == inline_member_names(ast_constrained_type.element),
        r matches Ok(p) ==> pending_distinct(p),
        r matches Ok(p) ==> written_constraint_lowered(ast_constrained_type.element, *constrained_type.ty, constraint_of(constrained_type.constraint), p.constraint),
        r matches Ok(p) ==> forall|k: int| 0 <= k < pending_names(p).len() ==> has_member(*constrained_type.ty, #[trigger] pending_names(p)[k]),
        ast_constraint_plain(ast_constrained_type.element) && inline_member_names(ast_constrained_type.element).len() == 0 ==> r is Ok,
        r matches Err(e) ==> e.is_ast(),
    decreases ast_constrained_type,
{
    let constraint = match &ast_constrained_type.element {
        AstConstrainedType::Suffixed(suffixed) => match &suffixed.element.constraint {
            Some(c) => match parse_constraint(parser, c, constrained_type, ConstraintContext::Contextless) {
                Ok(c) => Some(c),
                Err(e) => {
                    return Err(e);
                },
            },
            None => None,
        },
        AstConstrainedType::TypeWithConstraint(twc) => match parse_type_with_constraint(parser, twc, constrained_type) {
            Ok(c) => c,
            Err(e) => {
                return Err(e);
            },
        },
    };
    let mut component_constraints: Vec<(String, PendingConstraint)> = Vec::new();
    match &ast_constrained_type.element {
        AstConstrainedType::Suffixed(suffixed) => match &suffixed.element.ty.element {
            AstUntaggedType::BuiltinType(builtin) => match &builtin.element {
                AstBuiltinType::Structure(structure) => {
                    let ast_components = &structure.element.components;
                    let mut i: usize = 0;
                    while i < ast_components.len()
                        invariant
                            *ast_components == structure.element.components,
                            ast_constrained_type.element == AstConstrainedType::Suffixed(*suffixed),
                            suffixed.element.ty.element == AstUntaggedType::BuiltinType(*builtin),
                            builtin.element == AstBuiltinType::Structure(*structure),
                            i <= ast_components@.len(),
                            component_constraints@.len() == i,
                            forall|k: int| 0 <= k < i ==> has_member(*constrained_type.ty, (#[trigger] component_constraints@[k]).0@),
                            forall|a: int, b: int| 0 <= a < b < component_constraints@.len() ==> (#[trigger] component_constraints@[a]).0@ != (#[trigger] component_constraints@[b]).0@,
                            forall|k: int| 0 <= k < component_constraints@.len() ==> pending_distinct((#[trigger] component_constraints@[k]).1),
                            entry_names(component_constraints@) == ast_component_names(ast_components@.subrange(0, i as int)),
                        decreases ast_components@.len() - i,
                    {
                        let component = &ast_components[i];
                        proof {
                            assert(decreases_to!(structure.element.components => structure.element.components[i as int]));
                            assert(decreases_to!(*ast_constrained_type => ast_constrained_type.element));
                            assert(ast_constrained_type.element->Suffixed_0 == *suffixed);
                            assert(decreases_to!(ast_constrained_type.element => ast_constrained_type.element->Suffixed_0));
                            assert(suffixed.element.ty.element->BuiltinType_0 == *builtin);
                            assert(decreases_to!(suffixed.element.ty.element => suffixed.element.ty.element->BuiltinType_0));
                            assert(builtin.element->Structure_0 == *structure);
                            assert(decreases_to!(builtin.element => builtin.element->Structure_0));
                            assert(decreases_to!(*ast_constrained_type => structure.element.components[i as int]));
                        }
                        let member = match find_member(constrained_type.ty, &component.element.name.element) {
                            Some(m) => m,
                            None => {
                                return Err(ast_error("resolved type is missing a component of the written type", component.loc));
                            },
                        };
                        let component_type = match resolve(parser.context, member, component.loc) {
                            Ok(t) => t,
                            Err(e) => {
                                return Err(e);
                            },
                        };
                        let pending = match parse_type_constraint(parser, &component.element.ty, &component_type) {
                            Ok(p) => p,
                            Err(e) => {
                                return Err(e);
                            },
                        };
                        if entry_named(&component_constraints, &component.element.name.element) {
                            return Err(ast_error("component named twice", component.loc));
                        }
                        let ghost before = component_constraints@;
                        let entry_name = component.element.name.element.clone();
                        assert(ast_components@[i as int] == *component);
                        component_constraints.push((entry_name, pending));
                        assert(component_constraints@ == before.push((entry_name, pending)));
                        assert(component_constraints@[i as int].0@ == entry_name@);
                        assert forall|k: int| 0 <= k < i + 1 implies #[trigger] entry_names(component_constraints@)[k] == ast_component_names(ast_components@.subrange(0, i + 1))[k] by {
                            if k < i {
                                assert(entry_names(before)[k] == ast_component_names(ast_components@.subrange(0, i as int))[k]);
                            }
                        }
                        assert(entry_names(component_constraints@) =~= ast_component_names(ast_components@.subrange(0, i + 1)));
                        i = i + 1;
                    }
                    assert(ast_components@.subrange(0, i as int) =~= ast_components@);
                },
                AstBuiltinType::Choice(choice) => {
                    let ast_alternatives = &choice.element;
                    let mut i: usize = 0;
                    while i < ast_alternatives.len()
                        invariant
                            *ast_alternatives == choice.element,
                            ast_constrained_type.element == AstConstrainedType::Suffixed(*suffixed),
                            suffixed.element.ty.element == AstUntaggedType::BuiltinType(*builtin),
                            builtin.element == AstBuiltinType::Choice(*choice),
                            i <= ast_alternatives@.len(),
                            component_constraints@.len() == i,
                            forall|k: int| 0 <= k < i ==> has_member(*constrained_type.ty, (#[trigger] component_constraints@[k]).0@),
                            forall|a: int, b: int| 0 <= a < b < component_constraints@.len() ==> (#[trigger] component_constraints@[a]).0@ != (#[trigger] component_constraints@[b]).0@,
                            forall|k: int| 0 <= k < component_constraints@.len() ==> pending_distinct((#[trigger] component_constraints@[k]).1),
                            entry_names(component_constraints@) == ast_alternative_names(ast_alternatives@.subrange(0, i as int)),
                        decreases ast_alternatives@.len() - i,
                    {
                        let alternative = &ast_alternatives[i];
                        proof {
                            assert(decreases_to!(choice.element => choice.element[i as int]));
                            assert(decreases_to!(*ast_constrained_type => ast_constrained_type.element));
                            assert(ast_constrained_type.element->Suffixed_0 == *suffixed);
                            assert(decreases_to!(ast_constrained_type.element => ast_constrained_type.element->Suffixed_0));
                            assert(suffixed.element.ty.element->BuiltinType_0 == *builtin);
                            assert(decreases_to!(suffixed.element.ty.element => suffixed.element.ty.element->BuiltinType_0));
                            assert(builtin.element->Choice_0 == *choice);
                            assert(decreases_to!(builtin.element => builtin.element->Choice_0));
                            assert(decreases_to!(*ast_constrained_type => choice.element[i as int]));
                        }
                        let member = match find_member(constrained_type.ty, &alternative.element.name.element) {
                            Some(m) => m,
                            None => {
                                return Err(ast_error("resolved type is missing an alternative of the written type", alternative.loc));
                            },
                        };
                        let alternative_type = match resolve(parser.context, member, alternative.loc) {
                            Ok(t) => t,
                            Err(e) => {
                                return Err(e);
                            },
                        };
                        let pending = match parse_type_constraint(parser, &alternative.element.ty, &alternative_type) {
                            Ok(p) => p,
                            Err(e) => {
                                return Err(e);
                            },
                        };
                        if entry_named(&component_constraints, &alternative.element.name.element) {
                            return Err(ast_error("alternative named twice", alternative.loc));
                        }
                        let ghost before = component_constraints@;
                        let entry_name = alternative.element.name.element.clone();
                        assert(ast_alternatives@[i as int] == *alternative);
                        component_constraints.push((entry_name, pending));
                        assert(component_constraints@ == before.push((entry_name, pending)));
                        assert(component_constraints@[i as int].0@ == entry_name@);
                        assert forall|k: int| 0 <= k < i + 1 implies #[trigger] entry_names(component_constraints@)[k] == ast_alternative_names(ast_alternatives@.subrange(0, i + 1))[k] by {
                            if k < i {
                                assert(entry_names(before)[k] == ast_alternative_names(ast_alternatives@.subrange(0, i as int))[k]);
                            }
                        }
                        assert(entry_names(component_constraints@) =~= ast_alternative_names(ast_alternatives@.subrange(0, i + 1)));
                        i = i + 1;
                    }
                    assert(ast_alternatives@.subrange(0, i as int) =~= ast_alternatives@);
                },
                _ => {},
            },
            _ => {},
        },
        _ => {},
    }
    let p = PendingConstraint { constraint, component_constraints };
    assert forall|k: int| 0 <= k < pending_names(p).len() implies has_member(*constrained_type.ty, #[trigger] pending_names(p)[k]) by {
        assert(pending_names(p)[k] == p.component_constraints@[k].0@);
    }
    Ok(p)
}

pub fn parse_type_constraint(parser: &AstParser, ty: &AstElement<AstType>, constrained_type: &ResolvedType) -> (r: Result<
    PendingConstraint,
    Error,
>)
    ensures
        r matches Ok(p) ==> (p.constraint matches Some(c) ==> sizes_flat(c)),
        r matches Ok(p) ==> (p.constraint is Some <==> ast_has_constraint(ast_type_body(ty.element))),
        r matches Ok(p) ==> pending_names(p) == inline_member_names(ast_type_body(ty.element)),
        r matches Ok(p) ==> pending_distinct(p),
        r matches Ok(p) ==> written_constraint_lowered(ast_type_body(ty.element), *constrained_type.ty, constraint_of(constrained_type.constraint), p.constraint),
        r matches Ok(p) ==> forall|k: int| 0 <= k < pending_names(p).len() ==> has_member(*constrained_type.ty, #[trigger] pending_names(p)[k]),
        ast_constraint_plain(ast_type_body(ty.element)) && inline_member_names(ast_type_body(ty.element)).len() == 0 ==> r is Ok,
        r matches Err(e) ==> e.is_ast(),
    decreases ty,
{
    match &ty.element {
        AstType::TaggedType(tagged_type) => parse_constrained_type(parser, &tagged_type.element.ty, constrained_type),
        AstType::ConstrainedType(constrained) => parse_constrained_type(parser, constrained, constrained_type),
    }
}

/// Lowers the constraints of a type assignment against the type already registered
/// under its name.
pub fn parse_type_assignment_constraint(parser: &AstParser, type_assignment: &AstElement<AstTypeAssignment>) -> (r: Result<
    (QualifiedIdentifier, PendingConstraint),
    Error,
>)
    ensures
        r matches Ok(p) ==> p.0@ == (parser.module@, type_assignment.element.name.element@),
        r matches Ok(p) ==> (p.1.constraint matches Some(c) ==> sizes_flat(c)),
        r matches Ok(p) ==> (p.1.constraint is Some <==> ast_has_constraint(ast_type_body(type_assignment.element.ty.element))),
        r matches Ok(p) ==> pending_names(p.1) == inline_member_names(ast_type_body(type_assignment.element.ty.element)),
        r matches Ok(p) ==> pending_distinct(p.1),
        r matches Ok(p) ==> ({
            let types = parser.context.types();
            let i = index_of(types, (parser.module@, type_assignment.element.name.element@));
            0 <= i < types.len() && (types[i].1.ty.ty matches UntaggedType::BuiltinType(bt) ==> (
                written_constraint_lowered(ast_type_body(type_assignment.element.ty.element), bt, types[i].1.ty.constraint, p.1.constraint)
                && forall|k: int| 0 <= k < pending_names(p.1).len() ==> has_member(bt, #[trigger] pending_names(p.1)[k])))
        }),
        ({
            let types = parser.context.types();
            let i = index_of(types, (parser.module@, type_assignment.element.name.element@));
            &&& 0 <= i < types.len()
            &&& types[i].1.ty.ty is BuiltinType
            &&& ast_constraint_plain(ast_type_body(type_assignment.element.ty.element))
            &&& inline_member_names(ast_type_body(type_assignment.element.ty.element)).len() == 0
        }) ==> r is Ok,
        r matches Err(e) ==> e.is_ast(),
{
    let ident = QualifiedIdentifier::new(parser.module.copy(), type_assignment.element.name.element.clone());
    let decl = match parser.context.lookup_type(&ident) {
        Some(d) => d,
        None => {
            return Err(ast_error("type assignment is not registered", type_assignment.loc));
        },
    };
    let constrained_type = match resolve(parser.context, &decl.ty, type_assignment.loc) {
        Ok(t) => t,
        Err(e) => {
            return Err(e);
        },
    };
    match parse_type_constraint(parser, &type_assignment.element.ty, &constrained_type) {
        Ok(pending) => Ok((ident, pending)),
        Err(e) => Err(e),
    }
}


/// Number of components or alternatives of an inline SEQUENCE, SET or CHOICE type.
pub open spec fn member_count(t: TaggedType) -> int {
    match t.ty {
        UntaggedType::BuiltinType(BuiltinType::Structure(s)) => s.components@.len() as int,
        UntaggedType::BuiltinType(BuiltinType::Choice(c)) => c.alternatives@.len() as int,
        _ => 0,
    }
}

pub open spec fn member_name(t: TaggedType, i: int) -> Seq<char> {
    match t.ty {
        UntaggedType::BuiltinType(BuiltinType::Structure(s)) => s.components@[i].name.element@,
        UntaggedType::BuiltinType(BuiltinType::Choice(c)) => c.alternatives@[i].name.element@,
        _ => Seq::empty(),
    }
}

pub open spec fn member_type(t: TaggedType, i: int) -> TaggedType {
    match t.ty {
        UntaggedType::BuiltinType(BuiltinType::Structure(s)) => *s.components@[i].component_type,
        UntaggedType::BuiltinType(BuiltinType::Choice(c)) => *c.alternatives@[i].alternative_type,
        _ => t,
    }
}

/// Position of the first member named `name` at or after `i`, or -1.
pub open spec fn first_member_from(t: TaggedType, name: Seq<char>, i: int) -> int
    decreases member_count(t) - i,
{
    if i < 0 || i >= member_count(t) {
        -1
    } else if member_name(t, i) == name {
        i
    } else {
        first_member_from(t, name, i + 1)
    }
}

pub open spec fn first_member(t: TaggedType, name: Seq<char>) -> int {
    first_member_from(t, name, 0)
}

/// `a` and `b` are the same kind of type with the same members, apart from the members'
/// types: same names, order, OPTIONAL marks and defaults.
pub open spec fn same_members(a: TaggedType, b: TaggedType) -> bool {
    match (a.ty, b.ty) {
        (
            UntaggedType::BuiltinType(BuiltinType::Structure(x)),
            UntaggedType::BuiltinType(BuiltinType::Structure(y)),
        ) => x.ty == y.ty && x.components@.len() == y.components@.len() && forall|i: int|
            #![trigger y.components@[i]]
            0 <= i < x.components@.len() ==> x.components@[i].name == y.components@[i].name
                && x.components@[i].optional == y.components@[i].optional
                && x.components@[i].default_value == y.components@[i].default_value,
        (
            UntaggedType::BuiltinType(BuiltinType::Choice(x)),
            UntaggedType::BuiltinType(BuiltinType::Choice(y)),
        ) => x.alternatives@.len() == y.alternatives@.len() && forall|i: int|
            #![trigger y.alternatives@[i]]
            0 <= i < x.alternatives@.len() ==> x.alternatives@[i].name == y.alternatives@[i].name,
        _ => false,
    }
}

/// The entry names of a pending constraint are pairwise different.
pub open spec fn entry_names_distinct(p: PendingConstraint) -> bool {
    forall|a: int, b: int|
        0 <= a < b < p.component_constraints@.len() ==> (#[trigger] p.component_constraints@[a]).0@
            != (#[trigger] p.component_constraints@[b]).0@
}

/// Entry names are pairwise different, at every depth.
pub open spec fn pending_distinct(p: PendingConstraint) -> bool
    decreases p,
{
    &&& entry_names_distinct(p)
    &&& forall|k: int|
        #![trigger p.component_constraints@[k]]
        0 <= k < p.component_constraints@.len() ==> pending_distinct(p.component_constraints@[k].1)
}

/// Whether some entry already has the given name.
fn entry_named(es: &Vec<(String, PendingConstraint)>, name: &String) -> (r: bool)
    ensures
        r == exists|k: int| 0 <= k < es@.len() && (#[trigger] es@[k]).0@ == name@,
{
    let mut k: usize = 0;
    while k < es.len()
        invariant
            k <= es@.len(),
            forall|j: int| 0 <= j < k ==> (#[trigger] es@[j]).0@ != name@,
        decreases es@.len() - k,
    {
        if es[k].0 == *name {
            assert(es@[k as int].0@ == name@);
            return true;
        }
        k = k + 1;
    }
    false
}

/// The pending constraint fits `t`: its entries have distinct names, each names a member
/// of `t`, and each fits that member's type, at every depth.
pub open spec fn pending_fits(t: TaggedType, p: PendingConstraint) -> bool
    decreases p,
{
    &&& entry_names_distinct(p)
    &&& forall|k: int|
        #![trigger p.component_constraints@[k]]
        0 <= k < p.component_constraints@.len() ==> first_member(t, p.component_constraints@[k].0@) >= 0
            && pending_fits(member_type(t, first_member(t, p.component_constraints@[k].0@)), p.component_constraints@[k].1)
}

/// `new` is `old` with the pending constraint merged in: the constraint replaced when one
/// is pending, and each entry merged, the same way, into the member it names; all else
/// unchanged.
pub open spec fn applied(old: TaggedType, new: TaggedType, p: PendingConstraint) -> bool
    decreases p,
{
    &&& new.tag == old.tag
    &&& new.constraint == (if p.constraint is Some { p.constraint } else { old.constraint })
    &&& p.component_constraints@.len() == 0 ==> new.ty == old.ty
    &&& p.component_constraints@.len() > 0 ==> {
        &&& same_members(old, new)
        &&& forall|i: int|
            #![trigger member_type(new, i)]
            0 <= i < member_count(old) ==> {
                ||| exists|k: int|
                    #![trigger p.component_constraints@[k]]
                    0 <= k < p.component_constraints@.len() && first_member(old, p.component_constraints@[k].0@) == i
                        && applied(member_type(old, i), member_type(new, i), p.component_constraints@[k].1)
                ||| (forall|k: int|
                    #![trigger p.component_constraints@[k]]
                    0 <= k < p.component_constraints@.len() ==> first_member(old, p.component_constraints@[k].0@) != i)
                    && member_type(new, i) == member_type(old, i)
            }
    }
}

/// Position of the first structure component with the given name, if any.
fn component_position(components: &Vec<crate::types::StructureComponent>, name: &String) -> (r: Option<usize>)
    ensures
        r matches Some(i) ==> i < components@.len() && components@[i as int].name.element@ == name@,
        r matches Some(i) ==> forall|k: int| 0 <= k < i ==> (#[trigger] components@[k]).name.element@ != name@,
        r is None ==> forall|k: int| 0 <= k < components@.len() ==> (#[trigger] components@[k]).name.element@ != name@,
{
    let mut i: usize = 0;
    while i < components.len()
        invariant
            i <= components@.len(),
            forall|k: int| 0 <= k < i ==> (#[trigger] components@[k]).name.element@ != name@,
        decreases components@.len() - i,
    {
        if components[i].name.element == *name {
            return Some(i);
        }
        i = i + 1;
    }
    None
}

/// Position of the first CHOICE alternative with the given name, if any.
fn alternative_position(alternatives: &Vec<crate::types::ChoiceAlternative>, name: &String) -> (r: Option<usize>)
    ensures
        r matches Some(i) ==> i < alternatives@.len() && alternatives@[i as int].name.element@ == name@,
        r matches Some(i) ==> forall|k: int| 0 <= k < i ==> (#[trigger] alternatives@[k]).name.element@ != name@,
        r is None ==> forall|k: int| 0 <= k < alternatives@.len() ==> (#[trigger] alternatives@[k]).name.element@ != name@,
{
    let mut i: usize = 0;
    while i < alternatives.len()
        invariant
            i <= alternatives@.len(),
            forall|k: int| 0 <= k < i ==> (#[trigger] alternatives@[k]).name.element@ != name@,
        decreases alternatives@.len() - i,
    {
        if alternatives[i].name.element == *name {
            return Some(i);
        }
        i = i + 1;
    }
    None
}

/// The first member found by a scan from the start is the one `first_member` names.
proof fn lemma_first_member(t: TaggedType, name: Seq<char>, pos: int, from: int)
    requires
        0 <= from <= pos < member_count(t),
        member_name(t, pos) == name,
        forall|k: int| 0 <= k < pos ==> member_name(t, k) != name,
    ensures
        first_member_from(t, name, from) == pos,
    decreases pos - from,
{
    if from < pos {
        lemma_first_member(t, name, pos, from + 1);
    }
}

/// Merges pending constraints into a registered type, in place: a pending constraint of
/// the type replaces its constraint, and each component entry is merged, the same way,
/// into the component or alternative of that name.
///
/// An entry that names no member is a fault of the caller, left out by `requires`. Entry
/// names are distinct at every depth: the type lowering refuses a type that names a
/// member twice, and so does the constraint lowering that builds the entries
/// (`pending_distinct`).
pub fn apply_pending_constraint(tagged_type: &mut TaggedType, pending: PendingConstraint)
    requires
        pending_fits(*old(tagged_type), pending),
    ensures
        applied(*old(tagged_type), *final(tagged_type), pending),
    decreases pending,
{
    let ghost whole = pending;
    let ghost start = *tagged_type;
    if pending.component_constraints.len() == 0 {
        if let Some(c) = pending.constraint {
            tagged_type.constraint = Some(c);
        }
        return;
    }
    proof {
        let e0 = pending.component_constraints@[0];
        assert(first_member(start, e0.0@) >= 0);
    }
    if let Some(c) = pending.constraint {
        tagged_type.constraint = Some(c);
    }
    let ghost entered = *tagged_type;
    assert(member_count(entered) == member_count(start));
    let mut entries = pending.component_constraints;
    let ghost all = entries@;
    let ghost mut done: int = 0;
    proof {
        assert forall|k: int| 0 <= k < entries@.len() implies decreases_to!(whole => (#[trigger] entries@[k]).1) by {
            assert(decreases_to!(whole => whole.component_constraints));
            assert(decreases_to!(whole.component_constraints => whole.component_constraints[k]));
        }
        assert(same_members(start, entered)) by {
            assert(entered.ty == start.ty);
        }
    }
    while entries.len() > 0
        invariant
            whole == pending,
            all == whole.component_constraints@,
            0 <= done <= all.len(),
            entries@ == all.subrange(done, all.len() as int),
            pending_fits(start, whole),
            tagged_type.tag == start.tag,
            tagged_type.constraint == (if whole.constraint is Some { whole.constraint } else { start.constraint }),
            same_members(start, *tagged_type),
            member_count(start) > 0,
            forall|k: int| 0 <= k < entries@.len() ==> decreases_to!(whole => (#[trigger] entries@[k]).1),
            forall|i: int|
                #![trigger member_type(*tagged_type, i)]
                0 <= i < member_count(start) ==> {
                    ||| exists|k: int|
                        #![trigger all[k]]
                        0 <= k < done && first_member(start, all[k].0@) == i
                            && applied(member_type(start, i), member_type(*tagged_type, i), all[k].1)
                    ||| (forall|k: int| #![trigger all[k]] 0 <= k < done ==> first_member(start, all[k].0@) != i)
                        && member_type(*tagged_type, i) == member_type(start, i)
                },
        decreases entries@.len(),
    {
        let ghost before = entries@;
        let ghost cur = *tagged_type;
        assert(decreases_to!(whole => entries@[0].1));
        assert(all[done] == entries@[0]);
        let (name, sub) = entries.remove(0);
        proof {
            assert(before[0] == (name, sub));
            assert(decreases_to!(whole => sub));
            assert(entries@ =~= all.subrange(done + 1, all.len() as int));
            assert forall|k: int| 0 <= k < entries@.len() implies decreases_to!(whole => (#[trigger] entries@[k]).1) by {
                assert(entries@[k] == before[k + 1]);
            }
        }
        let ghost pos = first_member(start, name@);
        proof {
            assert(all[done].0@ == name@);
            assert(pos >= 0);
            assert(pending_fits(member_type(start, pos), sub));
            // no earlier entry named this member
            assert forall|k: int| 0 <= k < done implies first_member(start, #[trigger] all[k].0@) != pos by {
                assert(all[k].0@ != all[done].0@);
                lemma_first_member_name(start, all[k].0@);
                lemma_first_member_name(start, name@);
            }
            lemma_first_member_name(start, name@);
            assert(member_type(cur, pos) == member_type(start, pos));
        }
        match &mut tagged_type.ty {
            UntaggedType::BuiltinType(BuiltinType::Structure(structure)) => {
                let found = component_position(&structure.components, &name);
                proof {
                    assert(found is Some) by {
                        assert(member_name(cur, pos) == name@);
                    }
                    let i = found.unwrap() as int;
                    assert(cur.ty == UntaggedType::BuiltinType(BuiltinType::Structure(*structure)));
                    assert forall|k: int| 0 <= k < i implies member_name(start, k) != name@ by {
                        assert(member_name(cur, k) == structure.components@[k].name.element@);
                    }
                    assert(member_name(start, i) == name@) by {
                        assert(member_name(cur, i) == structure.components@[i].name.element@);
                    }
                    lemma_first_member(start, name@, i, 0);
                }
                let i = found.unwrap();
                let ghost comps = structure.components@;
                let mut component = structure.components.remove(i);
                let mut inner: TaggedType = *component.component_type;
                apply_pending_constraint(&mut inner, sub);
                component.component_type = Box::new(inner);
                structure.components.insert(i, component);
                proof {
                    assert(structure.components@ =~= comps.update(i as int, component));
                }
            },
            UntaggedType::BuiltinType(BuiltinType::Choice(choice)) => {
                let found = alternative_position(&choice.alternatives, &name);
                proof {
                    assert(found is Some) by {
                        assert(member_name(cur, pos) == name@);
                    }
                    let i = found.unwrap() as int;
                    assert(cur.ty == UntaggedType::BuiltinType(BuiltinType::Choice(*choice)));
                    assert forall|k: int| 0 <= k < i implies member_name(start, k) != name@ by {
                        assert(member_name(cur, k) == choice.alternatives@[k].name.element@);
                    }
                    assert(member_name(start, i) == name@) by {
                        assert(member_name(cur, i) == choice.alternatives@[i].name.element@);
                    }
                    lemma_first_member(start, name@, i, 0);
                }
                let i = found.unwrap();
                let ghost alts = choice.alternatives@;
                let mut alternative = choice.alternatives.remove(i);
                let mut inner: TaggedType = *alternative.alternative_type;
                apply_pending_constraint(&mut inner, sub);
                alternative.alternative_type = Box::new(inner);
                choice.alternatives.insert(i, alternative);
                proof {
                    assert(choice.alternatives@ =~= alts.update(i as int, alternative));
                }
            },
            _ => {
                proof {
                    assert(false);
                }
            },
        }
        proof {
            assert forall|j: int|
                #![trigger member_type(*tagged_type, j)]
                0 <= j < member_count(start) implies {
                    ||| exists|k: int|
                        #![trigger all[k]]
                        0 <= k < done + 1 && first_member(start, all[k].0@) == j
                            && applied(member_type(start, j), member_type(*tagged_type, j), all[k].1)
                    ||| (forall|k: int| #![trigger all[k]] 0 <= k < done + 1 ==> first_member(start, all[k].0@) != j)
                        && member_type(*tagged_type, j) == member_type(start, j)
                } by {
                if j == pos {
                    assert(all[done].1 == sub);
                } else {
                    assert(member_type(*tagged_type, j) == member_type(cur, j));
                }
            }
            done = done + 1;
        }
    }
    proof {
        assert(done == all.len());
        assert forall|i: int|
            #![trigger member_type(*tagged_type, i)]
            0 <= i < member_count(start) implies {
                ||| exists|k: int|
                    #![trigger whole.component_constraints@[k]]
                    0 <= k < whole.component_constraints@.len() && first_member(start, whole.component_constraints@[k].0@) == i
                        && applied(member_type(start, i), member_type(*tagged_type, i), whole.component_constraints@[k].1)
                ||| (forall|k: int|
                    #![trigger whole.component_constraints@[k]]
                    0 <= k < whole.component_constraints@.len() ==> first_member(start, whole.component_constraints@[k].0@) != i)
                    && member_type(*tagged_type, i) == member_type(start, i)
            } by {
            if exists|k: int| #![trigger all[k]] 0 <= k < done && first_member(start, all[k].0@) == i
                && applied(member_type(start, i), member_type(*tagged_type, i), all[k].1) {
                let k = choose|k: int| #![trigger all[k]] 0 <= k < done && first_member(start, all[k].0@) == i
                    && applied(member_type(start, i), member_type(*tagged_type, i), all[k].1);
                assert(whole.component_constraints@[k] == all[k]);
            } else {
                assert forall|k: int| 0 <= k < whole.component_constraints@.len() implies first_member(start, #[trigger] whole.component_constraints@[k].0@) != i by {
                    assert(whole.component_constraints@[k] == all[k]);
                }
            }
        }
    }
}

/// `first_member` is -1 or a position holding that name.
proof fn lemma_first_member_name(t: TaggedType, name: Seq<char>)
    ensures
        first_member(t, name) == -1 || (0 <= first_member(t, name) < member_count(t) && member_name(t, first_member(t, name)) == name),
{
    lemma_first_member_from_name(t, name, 0);
}

proof fn lemma_first_member_from_name(t: TaggedType, name: Seq<char>, i: int)
    ensures
        first_member_from(t, name, i) == -1 || (i <= first_member_from(t, name, i) < member_count(t) && member_name(t, first_member_from(t, name, i)) == name),
    decreases member_count(t) - i,
{
    if i >= 0 && i < member_count(t) && member_name(t, i) != name {
        lemma_first_member_from_name(t, name, i + 1);
    }
}

} // verus!
