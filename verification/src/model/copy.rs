//! Faithful copies of model values. Two values are the *same* when they agree
//! field by field, texts compared by their characters and lists element by
//! element; every `copy_*` function returns a value that is the same as its
//! argument.

use vstd::prelude::*;

use crate::model::rustdoc::{
    AssocItemConstraint, AssocItemConstraintKind, Constant, Discriminant, DynTrait, Enum, Function,
    FunctionPointer, FunctionSignature, GenericArg, GenericArgs, GenericBound, GenericParamDef,
    GenericParamDefKind, Generics, Id, Impl, Item, ItemEnum, Module, Path, PolyTrait,
    PreciseCapturingArg, Primitive, ProcMacro, Span, Static, Struct, StructKind, Term, Trait,
    TraitAlias, Type, TypeAlias, Union, Use, Variant, VariantKind, Visibility, WherePredicate,
};
use crate::text::copy_str;

verus! {

/// Optional texts that agree.
pub open spec fn same_opt_str(a: Option<String>, b: Option<String>) -> bool {
    match (a, b) {
        (Some(x), Some(y)) => x@ == y@,
        (None, None) => true,
        _ => false,
    }
}

/// Lists of texts that agree.
pub open spec fn same_strs(a: Seq<String>, b: Seq<String>) -> bool {
    a.len() == b.len() && forall|i: int| 0 <= i < a.len() ==> (#[trigger] a[i])@ == b[i]@
}

pub open spec fn same_span(a: Span, b: Span) -> bool {
    a.filename@ == b.filename@ && a.begin == b.begin && a.end == b.end
}

pub open spec fn same_visibility(a: Visibility, b: Visibility) -> bool {
    match (a, b) {
        (Visibility::Public, Visibility::Public) => true,
        (Visibility::Default, Visibility::Default) => true,
        (Visibility::Crate, Visibility::Crate) => true,
        (Visibility::Restricted { parent: p1, path: q1 }, Visibility::Restricted { parent: p2, path: q2 }) => p1
            == p2 && q1@ == q2@,
        _ => false,
    }
}

pub open spec fn same_links(a: Seq<(String, Id)>, b: Seq<(String, Id)>) -> bool {
    a.len() == b.len() && forall|i: int| 0 <= i < a.len() ==> (#[trigger] a[i]).0@ == b[i].0@ && a[i].1 == b[i].1
}

pub open spec fn same_constant(a: Constant, b: Constant) -> bool {
    a.expr@ == b.expr@ && same_opt_str(a.value, b.value) && a.is_literal == b.is_literal
}

pub open spec fn same_path(a: Path, b: Path) -> bool
    decreases a,
{
    a.path@ == b.path@ && a.id == b.id && same_opt_args(a.args, b.args)
}

pub open spec fn same_opt_args(a: Option<Box<GenericArgs>>, b: Option<Box<GenericArgs>>) -> bool
    decreases a,
{
    match (a, b) {
        (Some(x), Some(y)) => same_args(*x, *y),
        (None, None) => true,
        _ => false,
    }
}

pub open spec fn same_args(a: GenericArgs, b: GenericArgs) -> bool
    decreases a,
{
    match (a, b) {
        (
            GenericArgs::AngleBracketed { args: a1, constraints: c1 },
            GenericArgs::AngleBracketed { args: a2, constraints: c2 },
        ) => same_arg_list(a1@, a2@) && same_constraints(c1@, c2@),
        (
            GenericArgs::Parenthesized { inputs: i1, output: o1 },
            GenericArgs::Parenthesized { inputs: i2, output: o2 },
        ) => same_types(i1@, i2@) && same_opt_type(o1, o2),
        (GenericArgs::ReturnTypeNotation, GenericArgs::ReturnTypeNotation) => true,
        _ => false,
    }
}

pub open spec fn same_arg_list(a: Seq<GenericArg>, b: Seq<GenericArg>) -> bool
    decreases a,
{
    a.len() == b.len() && (a.len() == 0 || (same_arg_list(a.drop_last(), b.drop_last()) && same_arg(
        a.last(),
        b.last(),
    )))
}

pub open spec fn same_arg(a: GenericArg, b: GenericArg) -> bool
    decreases a,
{
    match (a, b) {
        (GenericArg::Lifetime(x), GenericArg::Lifetime(y)) => x@ == y@,
        (GenericArg::Type(x), GenericArg::Type(y)) => same_type(x, y),
        (GenericArg::Const(x), GenericArg::Const(y)) => same_constant(x, y),
        (GenericArg::Infer, GenericArg::Infer) => true,
        _ => false,
    }
}

pub open spec fn same_constraints(a: Seq<AssocItemConstraint>, b: Seq<AssocItemConstraint>) -> bool
    decreases a,
{
    a.len() == b.len() && (a.len() == 0 || (same_constraints(a.drop_last(), b.drop_last())
        && same_constraint(a.last(), b.last())))
}

pub open spec fn same_constraint(a: AssocItemConstraint, b: AssocItemConstraint) -> bool
    decreases a,
{
    a.name@ == b.name@ && same_opt_args(a.args, b.args) && match (a.binding, b.binding) {
        (AssocItemConstraintKind::Equality(x), AssocItemConstraintKind::Equality(y)) => same_term(x, y),
        (AssocItemConstraintKind::Constraint(x), AssocItemConstraintKind::Constraint(y)) => same_bounds(
            x@,
            y@,
        ),
        _ => false,
    }
}

pub open spec fn same_term(a: Term, b: Term) -> bool
    decreases a,
{
    match (a, b) {
        (Term::Type(x), Term::Type(y)) => same_type(x, y),
        (Term::Constant(x), Term::Constant(y)) => same_constant(x, y),
        _ => false,
    }
}

pub open spec fn same_bounds(a: Seq<GenericBound>, b: Seq<GenericBound>) -> bool
    decreases a,
{
    a.len() == b.len() && (a.len() == 0 || (same_bounds(a.drop_last(), b.drop_last()) && same_bound(
        a.last(),
        b.last(),
    )))
}

pub open spec fn same_capture(a: PreciseCapturingArg, b: PreciseCapturingArg) -> bool {
    match (a, b) {
        (PreciseCapturingArg::Lifetime(x), PreciseCapturingArg::Lifetime(y)) => x@ == y@,
        (PreciseCapturingArg::Param(x), PreciseCapturingArg::Param(y)) => x@ == y@,
        _ => false,
    }
}

pub open spec fn same_captures(a: Seq<PreciseCapturingArg>, b: Seq<PreciseCapturingArg>) -> bool {
    a.len() == b.len() && forall|i: int| 0 <= i < a.len() ==> same_capture(#[trigger] a[i], b[i])
}

pub open spec fn same_bound(a: GenericBound, b: GenericBound) -> bool
    decreases a,
{
    match (a, b) {
        (
            GenericBound::TraitBound { trait_: t1, generic_params: g1, modifier: m1 },
            GenericBound::TraitBound { trait_: t2, generic_params: g2, modifier: m2 },
        ) => same_path(t1, t2) && same_params(g1@, g2@) && m1 == m2,
        (GenericBound::Outlives(x), GenericBound::Outlives(y)) => x@ == y@,
        (GenericBound::Use(x), GenericBound::Use(y)) => same_captures(x@, y@),
        _ => false,
    }
}

pub open spec fn same_params(a: Seq<GenericParamDef>, b: Seq<GenericParamDef>) -> bool
    decreases a,
{
    a.len() == b.len() && (a.len() == 0 || (same_params(a.drop_last(), b.drop_last()) && same_param(
        a.last(),
        b.last(),
    )))
}

pub open spec fn same_param(a: GenericParamDef, b: GenericParamDef) -> bool
    decreases a,
{
    a.name@ == b.name@ && match (a.kind, b.kind) {
        (GenericParamDefKind::Lifetime { outlives: o1 }, GenericParamDefKind::Lifetime { outlives: o2 }) => same_strs(
            o1@,
            o2@,
        ),
        (
            GenericParamDefKind::Type { bounds: b1, default: d1, is_synthetic: s1 },
            GenericParamDefKind::Type { bounds: b2, default: d2, is_synthetic: s2 },
        ) => same_bounds(b1@, b2@) && same_opt_type(d1, d2) && s1 == s2,
        (
            GenericParamDefKind::Const { type_: t1, default: d1 },
            GenericParamDefKind::Const { type_: t2, default: d2 },
        ) => same_type(t1, t2) && same_opt_str(d1, d2),
        _ => false,
    }
}

pub open spec fn same_opt_type(a: Option<Type>, b: Option<Type>) -> bool
    decreases a,
{
    match (a, b) {
        (Some(x), Some(y)) => same_type(x, y),
        (None, None) => true,
        _ => false,
    }
}

pub open spec fn same_types(a: Seq<Type>, b: Seq<Type>) -> bool
    decreases a,
{
    a.len() == b.len() && (a.len() == 0 || (same_types(a.drop_last(), b.drop_last()) && same_type(
        a.last(),
        b.last(),
    )))
}

pub open spec fn same_poly_traits(a: Seq<PolyTrait>, b: Seq<PolyTrait>) -> bool
    decreases a,
{
    a.len() == b.len() && (a.len() == 0 || (same_poly_traits(a.drop_last(), b.drop_last())
        && same_path(a.last().trait_, b.last().trait_) && same_params(
        a.last().generic_params@,
        b.last().generic_params@,
    )))
}

pub open spec fn same_inputs(a: Seq<(String, Type)>, b: Seq<(String, Type)>) -> bool
    decreases a,
{
    a.len() == b.len() && (a.len() == 0 || (same_inputs(a.drop_last(), b.drop_last()) && a.last().0@
        == b.last().0@ && same_type(a.last().1, b.last().1)))
}

pub open spec fn same_sig(a: FunctionSignature, b: FunctionSignature) -> bool
    decreases a,
{
    same_inputs(a.inputs@, b.inputs@) && same_opt_type(a.output, b.output) && a.is_c_variadic == b.is_c_variadic
}

pub open spec fn same_type(a: Type, b: Type) -> bool
    decreases a,
{
    match (a, b) {
        (Type::ResolvedPath(x), Type::ResolvedPath(y)) => same_path(x, y),
        (Type::DynTrait(x), Type::DynTrait(y)) => same_poly_traits(x.traits@, y.traits@) && same_opt_str(
            x.lifetime,
            y.lifetime,
        ),
        (Type::Generic(x), Type::Generic(y)) => x@ == y@,
        (Type::Primitive(x), Type::Primitive(y)) => x@ == y@,
        (Type::FunctionPointer(x), Type::FunctionPointer(y)) => same_sig(x.sig, y.sig) && same_params(
            x.generic_params@,
            y.generic_params@,
        ) && x.header == y.header,
        (Type::Tuple(x), Type::Tuple(y)) => same_types(x@, y@),
        (Type::Slice(x), Type::Slice(y)) => same_type(*x, *y),
        (Type::Array { type_: t1, len: l1 }, Type::Array { type_: t2, len: l2 }) => same_type(*t1, *t2) && l1@
            == l2@,
        (Type::Pat { type_: t1 }, Type::Pat { type_: t2 }) => same_type(*t1, *t2),
        (Type::ImplTrait(x), Type::ImplTrait(y)) => same_bounds(x@, y@),
        (Type::Infer, Type::Infer) => true,
        (
            Type::RawPointer { is_mutable: m1, type_: t1 },
            Type::RawPointer { is_mutable: m2, type_: t2 },
        ) => m1 == m2 && same_type(*t1, *t2),
        (
            Type::BorrowedRef { lifetime: l1, is_mutable: m1, type_: t1 },
            Type::BorrowedRef { lifetime: l2, is_mutable: m2, type_: t2 },
        ) => same_opt_str(l1, l2) && m1 == m2 && same_type(*t1, *t2),
        (
            Type::QualifiedPath { name: n1, args: a1, self_type: s1, trait_: t1 },
            Type::QualifiedPath { name: n2, args: a2, self_type: s2, trait_: t2 },
        ) => n1@ == n2@ && same_opt_args(a1, a2) && same_type(*s1, *s2) && match (t1, t2) {
            (Some(x), Some(y)) => same_path(x, y),
            (None, None) => true,
            _ => false,
        },
        _ => false,
    }
}

pub open spec fn same_predicates(a: Seq<WherePredicate>, b: Seq<WherePredicate>) -> bool
    decreases a,
{
    a.len() == b.len() && (a.len() == 0 || (same_predicates(a.drop_last(), b.drop_last())
        && same_predicate(a.last(), b.last())))
}

pub open spec fn same_predicate(a: WherePredicate, b: WherePredicate) -> bool {
    match (a, b) {
        (
            WherePredicate::BoundPredicate { type_: t1, bounds: b1, generic_params: g1 },
            WherePredicate::BoundPredicate { type_: t2, bounds: b2, generic_params: g2 },
        ) => same_type(t1, t2) && same_bounds(b1@, b2@) && same_params(g1@, g2@),
        (
            WherePredicate::LifetimePredicate { lifetime: l1, outlives: o1 },
            WherePredicate::LifetimePredicate { lifetime: l2, outlives: o2 },
        ) => l1@ == l2@ && same_strs(o1@, o2@),
        (WherePredicate::EqPredicate { lhs: l1, rhs: r1 }, WherePredicate::EqPredicate { lhs: l2, rhs: r2 }) =>
            same_type(l1, l2) && same_term(r1, r2),
        _ => false,
    }
}

pub open spec fn same_generics(a: Generics, b: Generics) -> bool {
    same_params(a.params@, b.params@) && same_predicates(a.where_predicates@, b.where_predicates@)
}

pub open spec fn same_function(a: Function, b: Function) -> bool {
    same_sig(a.sig, b.sig) && same_generics(a.generics, b.generics) && a.header == b.header && a.has_body
        == b.has_body
}


// ---------------------------------------------------------------------------
// Copies

pub fn copy_opt_str(o: &Option<String>) -> (r: Option<String>)
    ensures
        same_opt_str(*o, r),
{
    match o {
        Some(s) => Some(copy_str(s.as_str())),
        None => None,
    }
}

pub fn copy_strs(v: &Vec<String>) -> (r: Vec<String>)
    ensures
        same_strs(v@, r@),
{
    let mut out: Vec<String> = Vec::new();
    let mut i: usize = 0;
    while i < v.len()
        invariant
            i <= v@.len(),
            same_strs(v@.take(i as int), out@),
        decreases v@.len() - i,
    {
        out.push(copy_str(v[i].as_str()));
        assert forall|j: int| 0 <= j < i + 1 implies (#[trigger] v@.take(i + 1)[j])@ == out@[j]@ by {
            if j < i {
                assert(v@.take(i as int)[j] == v@.take(i + 1)[j]);
            }
        }
        i += 1;
    }
    assert(v@.take(v@.len() as int) =~= v@);
    out
}

fn copy_span(a: &Span) -> (r: Span)
    ensures
        same_span(*a, r),
{
    Span { filename: copy_str(a.filename.as_str()), begin: a.begin, end: a.end }
}

fn copy_visibility(a: &Visibility) -> (r: Visibility)
    ensures
        same_visibility(*a, r),
{
    match a {
        Visibility::Public => Visibility::Public,
        Visibility::Default => Visibility::Default,
        Visibility::Crate => Visibility::Crate,
        Visibility::Restricted { parent, path } => Visibility::Restricted { parent: *parent, path: copy_str(path.as_str()) },
    }
}

fn copy_links(v: &Vec<(String, Id)>) -> (r: Vec<(String, Id)>)
    ensures
        same_links(v@, r@),
{
    let mut out: Vec<(String, Id)> = Vec::new();
    let mut i: usize = 0;
    while i < v.len()
        invariant
            i <= v@.len(),
            same_links(v@.take(i as int), out@),
        decreases v@.len() - i,
    {
        out.push((copy_str(v[i].0.as_str()), v[i].1));
        assert forall|j: int| 0 <= j < i + 1 implies (#[trigger] v@.take(i + 1)[j]).0@ == out@[j].0@ && v@.take(i + 1)[j].1 == out@[j].1 by {
            if j < i {
                assert(v@.take(i as int)[j] == v@.take(i + 1)[j]);
            }
        }
        i += 1;
    }
    assert(v@.take(v@.len() as int) =~= v@);
    out
}

fn copy_constant(a: &Constant) -> (r: Constant)
    ensures
        same_constant(*a, r),
{
    Constant { expr: copy_str(a.expr.as_str()), value: copy_opt_str(&a.value), is_literal: a.is_literal }
}

fn copy_path(a: &Path) -> (r: Path)
    ensures
        same_path(*a, r),
    decreases a,
{
    Path { path: copy_str(a.path.as_str()), id: a.id, args: copy_opt_args(&a.args) }
}

fn copy_opt_args(a: &Option<Box<GenericArgs>>) -> (r: Option<Box<GenericArgs>>)
    ensures
        same_opt_args(*a, r),
    decreases a,
{
    match a {
        Some(b) => Some(Box::new(copy_args(b))),
        None => None,
    }
}

fn copy_args(a: &GenericArgs) -> (r: GenericArgs)
    ensures
        same_args(*a, r),
    decreases a,
{
    match a {
        GenericArgs::AngleBracketed { args, constraints } => GenericArgs::AngleBracketed {
            args: copy_arg_list(args),
            constraints: copy_constraints(constraints),
        },
        GenericArgs::Parenthesized { inputs, output } => GenericArgs::Parenthesized {
            inputs: copy_types(inputs),
            output: copy_opt_type(output),
        },
        GenericArgs::ReturnTypeNotation => GenericArgs::ReturnTypeNotation,
    }
}

fn copy_arg(a: &GenericArg) -> (r: GenericArg)
    ensures
        same_arg(*a, r),
    decreases a,
{
    match a {
        GenericArg::Lifetime(x) => GenericArg::Lifetime(copy_str(x.as_str())),
        GenericArg::Type(t) => GenericArg::Type(copy_type(t)),
        GenericArg::Const(c) => GenericArg::Const(copy_constant(c)),
        GenericArg::Infer => GenericArg::Infer,
    }
}

fn copy_constraint(a: &AssocItemConstraint) -> (r: AssocItemConstraint)
    ensures
        same_constraint(*a, r),
    decreases a,
{
    let binding = match &a.binding {
        AssocItemConstraintKind::Equality(t) => AssocItemConstraintKind::Equality(copy_term(t)),
        AssocItemConstraintKind::Constraint(bs) => AssocItemConstraintKind::Constraint(copy_bounds(bs)),
    };
    AssocItemConstraint { name: copy_str(a.name.as_str()), args: copy_opt_args(&a.args), binding }
}

fn copy_term(a: &Term) -> (r: Term)
    ensures
        same_term(*a, r),
    decreases a,
{
    match a {
        Term::Type(t) => Term::Type(copy_type(t)),
        Term::Constant(c) => Term::Constant(copy_constant(c)),
    }
}

fn copy_capture(a: &PreciseCapturingArg) -> (r: PreciseCapturingArg)
    ensures
        same_capture(*a, r),
{
    match a {
        PreciseCapturingArg::Lifetime(x) => PreciseCapturingArg::Lifetime(copy_str(x.as_str())),
        PreciseCapturingArg::Param(x) => PreciseCapturingArg::Param(copy_str(x.as_str())),
    }
}

fn copy_captures(v: &Vec<PreciseCapturingArg>) -> (r: Vec<PreciseCapturingArg>)
    ensures
        same_captures(v@, r@),
{
    let mut out: Vec<PreciseCapturingArg> = Vec::new();
    let mut i: usize = 0;
    while i < v.len()
        invariant
            i <= v@.len(),
            same_captures(v@.take(i as int), out@),
        decreases v@.len() - i,
    {
        out.push(copy_capture(&v[i]));
        assert forall|j: int| 0 <= j < i + 1 implies same_capture(#[trigger] v@.take(i + 1)[j], out@[j]) by {
            if j < i {
                assert(v@.take(i as int)[j] == v@.take(i + 1)[j]);
            }
        }
        i += 1;
    }
    assert(v@.take(v@.len() as int) =~= v@);
    out
}

fn copy_bound(a: &GenericBound) -> (r: GenericBound)
    ensures
        same_bound(*a, r),
    decreases a,
{
    match a {
        GenericBound::TraitBound { trait_, generic_params, modifier } => GenericBound::TraitBound {
            trait_: copy_path(trait_),
            generic_params: copy_params(generic_params),
            modifier: *modifier,
        },
        GenericBound::Outlives(x) => GenericBound::Outlives(copy_str(x.as_str())),
        GenericBound::Use(cs) => GenericBound::Use(copy_captures(cs)),
    }
}

fn copy_param(a: &GenericParamDef) -> (r: GenericParamDef)
    ensures
        same_param(*a, r),
    decreases a,
{
    let kind = match &a.kind {
        GenericParamDefKind::Lifetime { outlives } => GenericParamDefKind::Lifetime { outlives: copy_strs(outlives) },
        GenericParamDefKind::Type { bounds, default, is_synthetic } => GenericParamDefKind::Type {
            bounds: copy_bounds(bounds),
            default: copy_opt_type(default),
            is_synthetic: *is_synthetic,
        },
        GenericParamDefKind::Const { type_, default } => GenericParamDefKind::Const {
            type_: copy_type(type_),
            default: copy_opt_str(default),
        },
    };
    GenericParamDef { name: copy_str(a.name.as_str()), kind }
}

fn copy_opt_type(a: &Option<Type>) -> (r: Option<Type>)
    ensures
        same_opt_type(*a, r),
    decreases a,
{
    match a {
        Some(t) => Some(copy_type(t)),
        None => None,
    }
}

fn copy_sig(a: &FunctionSignature) -> (r: FunctionSignature)
    ensures
        same_sig(*a, r),
    decreases a,
{
    FunctionSignature { inputs: copy_inputs(&a.inputs), output: copy_opt_type(&a.output), is_c_variadic: a.is_c_variadic }
}

pub fn copy_type(a: &Type) -> (r: Type)
    ensures
        same_type(*a, r),
    decreases a,
{
    match a {
        Type::ResolvedPath(p) => Type::ResolvedPath(copy_path(p)),
        Type::DynTrait(d) => Type::DynTrait(DynTrait { traits: copy_poly_traits(&d.traits), lifetime: copy_opt_str(&d.lifetime) }),
        Type::Generic(x) => Type::Generic(copy_str(x.as_str())),
        Type::Primitive(x) => Type::Primitive(copy_str(x.as_str())),
        Type::FunctionPointer(fp) => Type::FunctionPointer(
            Box::new(FunctionPointer { sig: copy_sig(&fp.sig), generic_params: copy_params(&fp.generic_params), header: fp.header }),
        ),
        Type::Tuple(ts) => Type::Tuple(copy_types(ts)),
        Type::Slice(t) => Type::Slice(Box::new(copy_type(t))),
        Type::Array { type_, len } => Type::Array { type_: Box::new(copy_type(type_)), len: copy_str(len.as_str()) },
        Type::Pat { type_ } => Type::Pat { type_: Box::new(copy_type(type_)) },
        Type::ImplTrait(bs) => Type::ImplTrait(copy_bounds(bs)),
        Type::Infer => Type::Infer,
        Type::RawPointer { is_mutable, type_ } => Type::RawPointer { is_mutable: *is_mutable, type_: Box::new(copy_type(type_)) },
        Type::BorrowedRef { lifetime, is_mutable, type_ } => Type::BorrowedRef {
            lifetime: copy_opt_str(lifetime),
            is_mutable: *is_mutable,
            type_: Box::new(copy_type(type_)),
        },
        Type::QualifiedPath { name, args, self_type, trait_ } => Type::QualifiedPath {
            name: copy_str(name.as_str()),
            args: copy_opt_args(args),
            self_type: Box::new(copy_type(self_type)),
            trait_: match trait_ {
                Some(p) => Some(copy_path(p)),
                None => None,
            },
        },
    }
}

fn copy_arg_list(v: &Vec<GenericArg>) -> (r: Vec<GenericArg>)
    ensures
        same_arg_list(v@, r@),
    decreases v,
{
    let mut out: Vec<GenericArg> = Vec::new();
    let mut i: usize = 0;
    while i < v.len()
        invariant
            i <= v@.len(),
            same_arg_list(v@.take(i as int), out@),
        decreases v@.len() - i,
    {
        assert(decreases_to!(v => v@[i as int]));
        let c = copy_arg(&v[i]);
        let ghost before = out@;
        out.push(c);
        assert(v@.take(i + 1).drop_last() =~= v@.take(i as int));
        assert(out@.drop_last() =~= before);
        i += 1;
    }
    assert(v@.take(v@.len() as int) =~= v@);
    out
}

fn copy_constraints(v: &Vec<AssocItemConstraint>) -> (r: Vec<AssocItemConstraint>)
    ensures
        same_constraints(v@, r@),
    decreases v,
{
    let mut out: Vec<AssocItemConstraint> = Vec::new();
    let mut i: usize = 0;
    while i < v.len()
        invariant
            i <= v@.len(),
            same_constraints(v@.take(i as int), out@),
        decreases v@.len() - i,
    {
        assert(decreases_to!(v => v@[i as int]));
        let c = copy_constraint(&v[i]);
        let ghost before = out@;
        out.push(c);
        assert(v@.take(i + 1).drop_last() =~= v@.take(i as int));
        assert(out@.drop_last() =~= before);
        i += 1;
    }
    assert(v@.take(v@.len() as int) =~= v@);
    out
}

fn copy_bounds(v: &Vec<GenericBound>) -> (r: Vec<GenericBound>)
    ensures
        same_bounds(v@, r@),
    decreases v,
{
    let mut out: Vec<GenericBound> = Vec::new();
    let mut i: usize = 0;
    while i < v.len()
        invariant
            i <= v@.len(),
            same_bounds(v@.take(i as int), out@),
        decreases v@.len() - i,
    {
        assert(decreases_to!(v => v@[i as int]));
        let c = copy_bound(&v[i]);
        let ghost before = out@;
        out.push(c);
        assert(v@.take(i + 1).drop_last() =~= v@.take(i as int));
        assert(out@.drop_last() =~= before);
        i += 1;
    }
    assert(v@.take(v@.len() as int) =~= v@);
    out
}

fn copy_params(v: &Vec<GenericParamDef>) -> (r: Vec<GenericParamDef>)
    ensures
        same_params(v@, r@),
    decreases v,
{
    let mut out: Vec<GenericParamDef> = Vec::new();
    let mut i: usize = 0;
    while i < v.len()
        invariant
            i <= v@.len(),
            same_params(v@.take(i as int), out@),
        decreases v@.len() - i,
    {
        assert(decreases_to!(v => v@[i as int]));
        let c = copy_param(&v[i]);
        let ghost before = out@;
        out.push(c);
        assert(v@.take(i + 1).drop_last() =~= v@.take(i as int));
        assert(out@.drop_last() =~= before);
        i += 1;
    }
    assert(v@.take(v@.len() as int) =~= v@);
    out
}

fn copy_types(v: &Vec<Type>) -> (r: Vec<Type>)
    ensures
        same_types(v@, r@),
    decreases v,
{
    let mut out: Vec<Type> = Vec::new();
    let mut i: usize = 0;
    while i < v.len()
        invariant
            i <= v@.len(),
            same_types(v@.take(i as int), out@),
        decreases v@.len() - i,
    {
        assert(decreases_to!(v => v@[i as int]));
        let c = copy_type(&v[i]);
        let ghost before = out@;
        out.push(c);
        assert(v@.take(i + 1).drop_last() =~= v@.take(i as int));
        assert(out@.drop_last() =~= before);
        i += 1;
    }
    assert(v@.take(v@.len() as int) =~= v@);
    out
}

fn copy_poly_traits(v: &Vec<PolyTrait>) -> (r: Vec<PolyTrait>)
    ensures
        same_poly_traits(v@, r@),
    decreases v,
{
    let mut out: Vec<PolyTrait> = Vec::new();
    let mut i: usize = 0;
    while i < v.len()
        invariant
            i <= v@.len(),
            same_poly_traits(v@.take(i as int), out@),
        decreases v@.len() - i,
    {
        assert(decreases_to!(v => v@[i as int]));
        let c = PolyTrait { trait_: copy_path(&v[i].trait_), generic_params: copy_params(&v[i].generic_params) };
        let ghost before = out@;
        out.push(c);
        assert(v@.take(i + 1).drop_last() =~= v@.take(i as int));
        assert(out@.drop_last() =~= before);
        i += 1;
    }
    assert(v@.take(v@.len() as int) =~= v@);
    out
}

fn copy_inputs(v: &Vec<(String, Type)>) -> (r: Vec<(String, Type)>)
    ensures
        same_inputs(v@, r@),
    decreases v,
{
    let mut out: Vec<(String, Type)> = Vec::new();
    let mut i: usize = 0;
    while i < v.len()
        invariant
            i <= v@.len(),
            same_inputs(v@.take(i as int), out@),
        decreases v@.len() - i,
    {
        assert(decreases_to!(v => v@[i as int]));
        let c = (copy_str(v[i].0.as_str()), copy_type(&v[i].1));
        let ghost before = out@;
        out.push(c);
        assert(v@.take(i + 1).drop_last() =~= v@.take(i as int));
        assert(out@.drop_last() =~= before);
        i += 1;
    }
    assert(v@.take(v@.len() as int) =~= v@);
    out
}


fn copy_predicate(a: &WherePredicate) -> (r: WherePredicate)
    ensures
        same_predicate(*a, r),
{
    match a {
        WherePredicate::BoundPredicate { type_, bounds, generic_params } => WherePredicate::BoundPredicate {
            type_: copy_type(type_),
            bounds: copy_bounds(bounds),
            generic_params: copy_params(generic_params),
        },
        WherePredicate::LifetimePredicate { lifetime, outlives } => WherePredicate::LifetimePredicate {
            lifetime: copy_str(lifetime.as_str()),
            outlives: copy_strs(outlives),
        },
        WherePredicate::EqPredicate { lhs, rhs } => WherePredicate::EqPredicate { lhs: copy_type(lhs), rhs: copy_term(rhs) },
    }
}

fn copy_predicates(v: &Vec<WherePredicate>) -> (r: Vec<WherePredicate>)
    ensures
        same_predicates(v@, r@),
{
    let mut out: Vec<WherePredicate> = Vec::new();
    let mut i: usize = 0;
    while i < v.len()
        invariant
            i <= v@.len(),
            same_predicates(v@.take(i as int), out@),
        decreases v@.len() - i,
    {
        let c = copy_predicate(&v[i]);
        let ghost before = out@;
        out.push(c);
        assert(v@.take(i + 1).drop_last() =~= v@.take(i as int));
        assert(out@.drop_last() =~= before);
        i += 1;
    }
    assert(v@.take(v@.len() as int) =~= v@);
    out
}

pub fn copy_generics(a: &Generics) -> (r: Generics)
    ensures
        same_generics(*a, r),
{
    Generics { params: copy_params(&a.params), where_predicates: copy_predicates(&a.where_predicates) }
}

pub fn copy_bound_list(v: &Vec<GenericBound>) -> (r: Vec<GenericBound>)
    ensures
        same_bounds(v@, r@),
{
    copy_bounds(v)
}

pub fn copy_opt_type_value(a: &Option<Type>) -> (r: Option<Type>)
    ensures
        same_opt_type(*a, r),
{
    copy_opt_type(a)
}

/// Optional paths that agree.
pub open spec fn same_opt_path(a: Option<Path>, b: Option<Path>) -> bool {
    match (a, b) {
        (Some(x), Some(y)) => same_path(x, y),
        (None, None) => true,
        _ => false,
    }
}

pub fn copy_opt_path(a: &Option<Path>) -> (r: Option<Path>)
    ensures
        same_opt_path(*a, r),
{
    match a {
        Some(p) => Some(copy_path(p)),
        None => None,
    }
}

pub fn copy_function(a: &Function) -> (r: Function)
    ensures
        same_function(*a, r),
{
    Function { sig: copy_sig(&a.sig), generics: copy_generics(&a.generics), header: a.header, has_body: a.has_body }
}

/// A copy of a list of ids.
pub fn copy_id_list(v: &Vec<Id>) -> (r: Vec<Id>)
    ensures
        r@ == v@,
{
    let mut out: Vec<Id> = Vec::new();
    let mut i: usize = 0;
    while i < v.len()
        invariant
            i <= v@.len(),
            out@ == v@.take(i as int),
        decreases v@.len() - i,
    {
        out.push(v[i]);
        assert(out@ =~= v@.take(i + 1));
        i += 1;
    }
    assert(v@.take(v@.len() as int) =~= v@);
    out
}

/// Item kinds that hold no lists of contained items agree: every field the
/// same.
pub open spec fn same_plain_inner(a: ItemEnum, b: ItemEnum) -> bool {
    match (a, b) {
        (ItemEnum::ExternCrate { name: n1, rename: r1 }, ItemEnum::ExternCrate { name: n2, rename: r2 }) => n1@ == n2@
            && same_opt_str(r1, r2),
        (ItemEnum::Use(x), ItemEnum::Use(y)) => x.source@ == y.source@ && x.name@ == y.name@ && x.id == y.id
            && x.is_glob == y.is_glob,
        (ItemEnum::StructField(x), ItemEnum::StructField(y)) => same_type(x, y),
        (ItemEnum::Function(x), ItemEnum::Function(y)) => same_function(x, y),
        (ItemEnum::TraitAlias(x), ItemEnum::TraitAlias(y)) => same_generics(x.generics, y.generics) && same_bounds(
            x.params@,
            y.params@,
        ),
        (ItemEnum::TypeAlias(x), ItemEnum::TypeAlias(y)) => same_type(x.type_, y.type_) && same_generics(
            x.generics,
            y.generics,
        ),
        (ItemEnum::Constant { type_: t1, const_: c1 }, ItemEnum::Constant { type_: t2, const_: c2 }) => same_type(t1, t2)
            && same_constant(c1, c2),
        (ItemEnum::Static(x), ItemEnum::Static(y)) => same_type(x.type_, y.type_) && x.is_mutable == y.is_mutable
            && x.expr@ == y.expr@ && x.is_unsafe == y.is_unsafe,
        (ItemEnum::ExternType, ItemEnum::ExternType) => true,
        (ItemEnum::Macro(x), ItemEnum::Macro(y)) => x@ == y@,
        (ItemEnum::ProcMacro(x), ItemEnum::ProcMacro(y)) => x.kind == y.kind && same_strs(x.helpers@, y.helpers@),
        (ItemEnum::Primitive(x), ItemEnum::Primitive(y)) => x.name@ == y.name@ && x.impls@ == y.impls@,
        (ItemEnum::AssocConst { type_: t1, value: v1 }, ItemEnum::AssocConst { type_: t2, value: v2 }) => same_type(t1, t2)
            && same_opt_str(v1, v2),
        (
            ItemEnum::AssocType { generics: g1, bounds: b1, type_: t1 },
            ItemEnum::AssocType { generics: g2, bounds: b2, type_: t2 },
        ) => same_generics(g1, g2) && same_bounds(b1@, b2@) && same_opt_type(t1, t2),
        _ => false,
    }
}

/// Whether an item kind holds lists of contained items (modules, structs,
/// enums, unions, variants, traits and impls).
pub open spec fn is_container(a: ItemEnum) -> bool {
    match a {
        ItemEnum::Module(_) | ItemEnum::Struct(_) | ItemEnum::Enum(_) | ItemEnum::Union(_) | ItemEnum::Variant(_)
        | ItemEnum::Trait(_) | ItemEnum::Impl(_) => true,
        _ => false,
    }
}

/// A copy of an item kind that holds no lists of contained items.
pub fn copy_plain_inner(a: &ItemEnum) -> (r: ItemEnum)
    requires
        !is_container(*a),
    ensures
        same_plain_inner(*a, r),
{
    match a {
        ItemEnum::ExternCrate { name, rename } => ItemEnum::ExternCrate { name: copy_str(name.as_str()), rename: copy_opt_str(rename) },
        ItemEnum::Use(u) => ItemEnum::Use(Use { source: copy_str(u.source.as_str()), name: copy_str(u.name.as_str()), id: u.id, is_glob: u.is_glob }),
        ItemEnum::StructField(t) => ItemEnum::StructField(copy_type(t)),
        ItemEnum::Function(f) => ItemEnum::Function(copy_function(f)),
        ItemEnum::TraitAlias(t) => ItemEnum::TraitAlias(TraitAlias { generics: copy_generics(&t.generics), params: copy_bounds(&t.params) }),
        ItemEnum::TypeAlias(t) => ItemEnum::TypeAlias(TypeAlias { type_: copy_type(&t.type_), generics: copy_generics(&t.generics) }),
        ItemEnum::Constant { type_, const_ } => ItemEnum::Constant { type_: copy_type(type_), const_: copy_constant(const_) },
        ItemEnum::Static(st) => ItemEnum::Static(
            Static { type_: copy_type(&st.type_), is_mutable: st.is_mutable, expr: copy_str(st.expr.as_str()), is_unsafe: st.is_unsafe },
        ),
        ItemEnum::ExternType => ItemEnum::ExternType,
        ItemEnum::Macro(m) => ItemEnum::Macro(copy_str(m.as_str())),
        ItemEnum::ProcMacro(pm) => ItemEnum::ProcMacro(ProcMacro { kind: pm.kind, helpers: copy_strs(&pm.helpers) }),
        ItemEnum::Primitive(pr) => ItemEnum::Primitive(Primitive { name: copy_str(pr.name.as_str()), impls: copy_id_list(&pr.impls) }),
        ItemEnum::AssocConst { type_, value } => ItemEnum::AssocConst { type_: copy_type(type_), value: copy_opt_str(value) },
        ItemEnum::AssocType { generics, bounds, type_ } => ItemEnum::AssocType {
            generics: copy_generics(generics),
            bounds: copy_bounds(bounds),
            type_: copy_opt_type(type_),
        },
        _ => ItemEnum::ExternType,
    }
}

/// The fields of an item other than its id and kind agree.
pub open spec fn same_item_fields(a: Item, b: Item) -> bool {
    &&& a.crate_id == b.crate_id
    &&& same_opt_str(a.name, b.name)
    &&& match (a.span, b.span) {
        (Some(x), Some(y)) => same_span(x, y),
        (None, None) => true,
        _ => false,
    }
    &&& same_visibility(a.visibility, b.visibility)
    &&& same_opt_str(a.docs, b.docs)
    &&& same_links(a.links@, b.links@)
}

/// An item with id `id` and kind `inner`, its other fields copied from `a`.
pub fn copy_item_fields(a: &Item, id: Id, inner: ItemEnum) -> (r: Item)
    ensures
        same_item_fields(*a, r),
        r.id == id,
        r.inner == inner,
{
    Item {
        id,
        crate_id: a.crate_id,
        name: copy_opt_str(&a.name),
        span: match &a.span {
            Some(sp) => Some(copy_span(sp)),
            None => None,
        },
        visibility: copy_visibility(&a.visibility),
        docs: copy_opt_str(&a.docs),
        links: copy_links(&a.links),
        inner,
    }
}

} // verus!
