//! Format types, generics, and function signatures back into readable Rust
//! source fragments. These are emitted inside fenced code blocks, so they are
//! plain text (no links).

use vstd::prelude::*;

use crate::model::rustdoc::{
    AssocItemConstraint, AssocItemConstraintKind, Function, FunctionSignature, GenericArg,
    GenericArgs, GenericBound, GenericParamDef, GenericParamDefKind, Generics, Path, PolyTrait,
    Term, TraitBoundModifier, Type, WherePredicate,
};
use crate::text::{
    copy_str, join, join_strings, non_empty, push_str, push_text, str_eq, texts,
};

verus! {

// ---------------------------------------------------------------------------
// Model of the rendered text

/// The Rust source text of a type.
pub open spec fn type_text(t: Type) -> Seq<char>
    decreases t,
{
    match t {
        Type::ResolvedPath(p) => path_text(p),
        Type::Generic(name) => name@,
        Type::Primitive(name) => name@,
        Type::Infer => "_"@,
        Type::Tuple(elems) => "("@ + join(types_text(elems@), ", "@) + (if elems@.len() == 1 {
            ","@
        } else {
            seq![]
        }) + ")"@,
        Type::Slice(inner) => "["@ + type_text(*inner) + "]"@,
        Type::Array { type_, len } => "["@ + type_text(*type_) + "; "@ + len@ + "]"@,
        Type::ImplTrait(bounds) => "impl "@ + join(non_empty(bound_list_text(bounds@)), " + "@),
        Type::DynTrait(d) => "dyn "@ + join(poly_traits_text(d.traits@), " + "@) + (match d.lifetime {
            Some(lt) => " + "@ + lt@,
            None => seq![],
        }),
        Type::RawPointer { is_mutable, type_ } => (if is_mutable {
            "*mut"@
        } else {
            "*const"@
        }) + " "@ + type_text(*type_),
        Type::BorrowedRef { lifetime, is_mutable, type_ } => "&"@ + (match lifetime {
            Some(lt) => lt@ + " "@,
            None => seq![],
        }) + (if is_mutable {
            "mut "@
        } else {
            seq![]
        }) + type_text(*type_),
        Type::QualifiedPath { name, args, self_type, trait_ } => match trait_ {
            Some(tr) => if tr.path@.len() > 0 {
                "<"@ + type_text(*self_type) + " as "@ + path_text(tr) + ">::"@ + name@
            } else {
                type_text(*self_type) + "::"@ + name@
            },
            None => type_text(*self_type) + "::"@ + name@,
        },
        Type::FunctionPointer(fp) => "fn"@ + sig_text(fp.sig),
        Type::Pat { type_ } => type_text(*type_),
    }
}

/// The texts of a list of types.
pub open spec fn types_text(ts: Seq<Type>) -> Seq<Seq<char>>
    decreases ts,
{
    if ts.len() == 0 {
        seq![]
    } else {
        types_text(ts.drop_last()).push(type_text(ts.last()))
    }
}

/// The texts of the trait paths of `dyn` bounds.
pub open spec fn poly_traits_text(ts: Seq<PolyTrait>) -> Seq<Seq<char>>
    decreases ts,
{
    if ts.len() == 0 {
        seq![]
    } else {
        poly_traits_text(ts.drop_last()).push(path_text(ts.last().trait_))
    }
}

/// A resolved path with its generic arguments, e.g. `Vec<T>`.
pub open spec fn path_text(p: Path) -> Seq<char>
    decreases p,
{
    p.path@ + opt_args_text(p.args)
}

/// Optional generic arguments.
pub open spec fn opt_args_text(a: Option<Box<GenericArgs>>) -> Seq<char>
    decreases a,
{
    match a {
        None => seq![],
        Some(b) => args_text(*b),
    }
}

/// Generic arguments: `<...>` (empty when there are none), `(..) -> ..`, or
/// `(..)`.
pub open spec fn args_text(a: GenericArgs) -> Seq<char>
    decreases a,
{
    match a {
        GenericArgs::AngleBracketed { args, constraints } => {
            let parts = arg_list_text(args@) + constraint_list_text(constraints@);
            if parts.len() == 0 {
                seq![]
            } else {
                "<"@ + join(parts, ", "@) + ">"@
            }
        },
        GenericArgs::Parenthesized { inputs, output } => "("@ + join(types_text(inputs@), ", "@)
            + ")"@ + (match output {
            Some(o) => " -> "@ + type_text(o),
            None => seq![],
        }),
        GenericArgs::ReturnTypeNotation => "(..)"@,
    }
}

/// The texts of generic arguments.
pub open spec fn arg_list_text(args: Seq<GenericArg>) -> Seq<Seq<char>>
    decreases args,
{
    if args.len() == 0 {
        seq![]
    } else {
        arg_list_text(args.drop_last()).push(arg_text(args.last()))
    }
}

/// One generic argument.
pub open spec fn arg_text(a: GenericArg) -> Seq<char>
    decreases a,
{
    match a {
        GenericArg::Lifetime(lt) => lt@,
        GenericArg::Type(t) => type_text(t),
        GenericArg::Const(c) => c.expr@,
        GenericArg::Infer => "_"@,
    }
}

/// The texts of associated item constraints: `Name = Type` for an equality
/// with a type, `Name = _` for a bound constraint, nothing for an equality
/// with a constant.
pub open spec fn constraint_list_text(cs: Seq<AssocItemConstraint>) -> Seq<Seq<char>>
    decreases cs,
{
    if cs.len() == 0 {
        seq![]
    } else {
        let c = cs.last();
        let rest = constraint_list_text(cs.drop_last());
        match c.binding {
            AssocItemConstraintKind::Equality(Term::Type(t)) => rest.push(
                c.name@ + " = "@ + type_text(t),
            ),
            AssocItemConstraintKind::Equality(Term::Constant(_)) => rest,
            AssocItemConstraintKind::Constraint(_) => rest.push(c.name@ + " = "@ + "_"@),
        }
    }
}

/// One bound (possibly empty, for a precise-capturing `use<..>`).
pub open spec fn bound_text(b: GenericBound) -> Seq<char>
    decreases b,
{
    match b {
        GenericBound::TraitBound { trait_, modifier, .. } => (match modifier {
            TraitBoundModifier::Unmodified => seq![],
            TraitBoundModifier::Maybe => "?"@,
            TraitBoundModifier::MaybeConst => "~const "@,
        }) + path_text(trait_),
        GenericBound::Outlives(lt) => lt@,
        GenericBound::Use(_) => seq![],
    }
}

/// The texts of bounds, all of them (empty ones included).
pub open spec fn bound_list_text(bs: Seq<GenericBound>) -> Seq<Seq<char>>
    decreases bs,
{
    if bs.len() == 0 {
        seq![]
    } else {
        bound_list_text(bs.drop_last()).push(bound_text(bs.last()))
    }
}

/// The non-empty texts of bounds.
pub open spec fn bounds_parts(bs: Seq<GenericBound>) -> Seq<Seq<char>> {
    non_empty(bound_list_text(bs))
}

/// A function signature's `(args) -> Ret` part.
pub open spec fn sig_text(sig: FunctionSignature) -> Seq<char>
    decreases sig,
{
    let params = inputs_text(sig.inputs@) + if sig.is_c_variadic {
        seq!["..."@]
    } else {
        seq![]
    };
    "("@ + join(params, ", "@) + ")"@ + (match sig.output {
        Some(o) => " -> "@ + type_text(o),
        None => seq![],
    })
}

/// The texts of function parameters.
pub open spec fn inputs_text(ins: Seq<(String, Type)>) -> Seq<Seq<char>>
    decreases ins,
{
    if ins.len() == 0 {
        seq![]
    } else {
        inputs_text(ins.drop_last()).push(
            param_text(ins.last().0@, ins.last().1, type_text(ins.last().1)),
        )
    }
}

/// Whether `t` is the generic `Self`.
pub open spec fn is_self_type(t: Type) -> bool {
    match t {
        Type::Generic(g) => g@ == "Self"@,
        _ => false,
    }
}

/// One parameter, given the text `tt` of its type; a receiver renders as
/// `self`, `&self`, `&mut self` (with its lifetime) or `self: Type`.
pub open spec fn param_text(name: Seq<char>, ty: Type, tt: Seq<char>) -> Seq<char> {
    if name == "self"@ {
        match ty {
            Type::Generic(g) => if g@ == "Self"@ {
                "self"@
            } else {
                "self: "@ + tt
            },
            Type::BorrowedRef { lifetime, is_mutable, type_ } => if is_self_type(*type_) {
                "&"@ + (match lifetime {
                    Some(lt) => lt@ + " "@,
                    None => seq![],
                }) + (if is_mutable {
                    "mut "@
                } else {
                    seq![]
                }) + "self"@
            } else {
                "self: "@ + tt
            },
            _ => "self: "@ + tt,
        }
    } else {
        name + ": "@ + tt
    }
}

/// Whether a generic parameter was synthesized for an `impl Trait` argument.
pub open spec fn is_synthetic_param(p: GenericParamDef) -> bool {
    match p.kind {
        GenericParamDefKind::Type { is_synthetic, .. } => is_synthetic,
        _ => false,
    }
}

/// One generic parameter declaration.
pub open spec fn param_decl_text(p: GenericParamDef) -> Seq<char> {
    match p.kind {
        GenericParamDefKind::Lifetime { outlives } => if outlives@.len() == 0 {
            p.name@
        } else {
            p.name@ + ": "@ + join(texts(outlives@), " + "@)
        },
        GenericParamDefKind::Type { bounds, default, .. } => p.name@ + (if bounds@.len() == 0 {
            seq![]
        } else {
            ": "@ + join(bounds_parts(bounds@), " + "@)
        }) + (match default {
            Some(d) => " = "@ + type_text(d),
            None => seq![],
        }),
        GenericParamDefKind::Const { type_, default } => "const "@ + p.name@ + ": "@ + type_text(
            type_,
        ) + (match default {
            Some(d) => " = "@ + d@,
            None => seq![],
        }),
    }
}

/// The declarations of the non-synthesized parameters.
pub open spec fn param_decls(ps: Seq<GenericParamDef>) -> Seq<Seq<char>>
    decreases ps.len(),
{
    if ps.len() == 0 {
        seq![]
    } else if is_synthetic_param(ps.last()) {
        param_decls(ps.drop_last())
    } else {
        param_decls(ps.drop_last()).push(param_decl_text(ps.last()))
    }
}

/// The `<...>` generic parameter declaration, or empty.
pub open spec fn generics_text(g: Generics) -> Seq<char> {
    let ps = param_decls(g.params@);
    if ps.len() == 0 {
        seq![]
    } else {
        "<"@ + join(ps, ", "@) + ">"@
    }
}

/// One `where` predicate (possibly empty).
pub open spec fn predicate_text(p: WherePredicate) -> Seq<char> {
    match p {
        WherePredicate::BoundPredicate { type_, bounds, .. } => type_text(type_) + ": "@ + join(
            bounds_parts(bounds@),
            " + "@,
        ),
        WherePredicate::LifetimePredicate { lifetime, outlives } => if outlives@.len() == 0 {
            lifetime@
        } else {
            lifetime@ + ": "@ + join(texts(outlives@), " + "@)
        },
        WherePredicate::EqPredicate { lhs, rhs } => type_text(lhs) + " = "@ + (match rhs {
            Term::Type(t) => type_text(t),
            Term::Constant(c) => c.expr@,
        }),
    }
}

/// The texts of `where` predicates, all of them.
pub open spec fn predicate_list_text(ps: Seq<WherePredicate>) -> Seq<Seq<char>>
    decreases ps.len(),
{
    if ps.len() == 0 {
        seq![]
    } else {
        predicate_list_text(ps.drop_last()).push(predicate_text(ps.last()))
    }
}

/// The `\nwhere\n    ...` clause, or empty.
pub open spec fn where_text(g: Generics) -> Seq<char> {
    let ps = non_empty(predicate_list_text(g.where_predicates@));
    if ps.len() == 0 {
        seq![]
    } else {
        "\nwhere\n    "@ + join(ps, ",\n    "@)
    }
}

/// A full function signature without a visibility keyword.
pub open spec fn function_text(name: Seq<char>, f: Function) -> Seq<char> {
    (if f.header.is_const {
        "const "@
    } else {
        seq![]
    }) + (if f.header.is_async {
        "async "@
    } else {
        seq![]
    }) + (if f.header.is_unsafe {
        "unsafe "@
    } else {
        seq![]
    }) + "fn "@ + name + generics_text(f.generics) + sig_text(f.sig) + where_text(f.generics)
}

// ---------------------------------------------------------------------------
// Lemmas

proof fn lemma_non_empty_push(parts: Seq<Seq<char>>, p: Seq<char>)
    ensures
        non_empty(parts.push(p)) == if p.len() == 0 {
            non_empty(parts)
        } else {
            non_empty(parts).push(p)
        },
{
    assert(parts.push(p).drop_last() =~= parts);
}

// ---------------------------------------------------------------------------
// Formatting

/// Format a full function signature (without a visibility keyword), e.g.
/// `fn map<U>(self, f: F) -> Option<U>`.
pub fn function_signature(name: &str, func: &Function) -> (r: String)
    ensures
        r@ == function_text(name@, *func),
{
    let mut s = String::new();
    if func.header.is_const {
        push_str(&mut s, "const ");
    }
    if func.header.is_async {
        push_str(&mut s, "async ");
    }
    if func.header.is_unsafe {
        push_str(&mut s, "unsafe ");
    }
    push_str(&mut s, "fn ");
    push_str(&mut s, name);
    let g = generics_decl(&func.generics);
    push_str(&mut s, g.as_str());
    let p = fn_params_and_ret(&func.sig);
    push_str(&mut s, p.as_str());
    let w = where_clause(&func.generics);
    push_str(&mut s, w.as_str());
    proof {
        assert(s@ =~= function_text(name@, *func));
    }
    s
}

/// Render a [`Type`] as Rust source.
pub fn type_str(ty: &Type) -> (r: String)
    ensures
        r@ == type_text(*ty),
    decreases ty,
{
    match ty {
        Type::ResolvedPath(path) => path_str(path),
        Type::Generic(name) => copy_str(name.as_str()),
        Type::Primitive(name) => copy_str(name.as_str()),
        Type::Infer => copy_str("_"),
        Type::Tuple(elems) => {
            let inner = types_str(elems);
            let mut s = copy_str("(");
            let j = join_strings(&inner, ", ");
            push_str(&mut s, j.as_str());
            if elems.len() == 1 {
                // A one-element tuple keeps its trailing comma.
                push_str(&mut s, ",");
            }
            push_str(&mut s, ")");
            proof {
                assert(s@ =~= type_text(*ty));
            }
            s
        },
        Type::Slice(inner) => {
            let mut s = copy_str("[");
            let t = type_str(inner);
            push_str(&mut s, t.as_str());
            push_str(&mut s, "]");
            s
        },
        Type::Array { type_, len } => {
            let mut s = copy_str("[");
            let t = type_str(type_);
            push_str(&mut s, t.as_str());
            push_str(&mut s, "; ");
            push_str(&mut s, len.as_str());
            push_str(&mut s, "]");
            proof {
                assert(s@ =~= type_text(*ty));
            }
            s
        },
        Type::ImplTrait(bounds) => {
            let mut s = copy_str("impl ");
            let b = bounds_str(bounds);
            push_str(&mut s, b.as_str());
            s
        },
        Type::DynTrait(dyn_trait) => {
            let traits = poly_traits_str(&dyn_trait.traits);
            let mut s = copy_str("dyn ");
            let j = join_strings(&traits, " + ");
            push_str(&mut s, j.as_str());
            if let Some(lt) = &dyn_trait.lifetime {
                push_str(&mut s, " + ");
                push_str(&mut s, lt.as_str());
            }
            proof {
                assert(s@ =~= type_text(*ty));
            }
            s
        },
        Type::RawPointer { is_mutable, type_ } => {
            let mut s = if *is_mutable {
                copy_str("*mut")
            } else {
                copy_str("*const")
            };
            push_str(&mut s, " ");
            let t = type_str(type_);
            push_str(&mut s, t.as_str());
            proof {
                assert(s@ =~= type_text(*ty));
            }
            s
        },
        Type::BorrowedRef { lifetime, is_mutable, type_ } => {
            let mut s = copy_str("&");
            if let Some(lt) = lifetime {
                push_str(&mut s, lt.as_str());
                push_str(&mut s, " ");
            }
            if *is_mutable {
                push_str(&mut s, "mut ");
            }
            let t = type_str(type_);
            push_str(&mut s, t.as_str());
            proof {
                assert(s@ =~= type_text(*ty));
            }
            s
        },
        Type::QualifiedPath { name, self_type, trait_, .. } => {
            // `<T as Trait>::Name`; but rustdoc leaves the trait path empty for
            // plain `Self::Name` / `T::Name`, which we render without the cast.
            let st = type_str(self_type);
            match trait_ {
                Some(tr) if !tr.path.as_str().is_empty() => {
                    let mut s = copy_str("<");
                    push_str(&mut s, st.as_str());
                    push_str(&mut s, " as ");
                    let p = path_str(tr);
                    push_str(&mut s, p.as_str());
                    push_str(&mut s, ">::");
                    push_str(&mut s, name.as_str());
                    proof {
                        assert(s@ =~= type_text(*ty));
                    }
                    s
                },
                _ => {
                    let mut s = st;
                    push_str(&mut s, "::");
                    push_str(&mut s, name.as_str());
                    s
                },
            }
        },
        Type::FunctionPointer(fp) => {
            let mut s = copy_str("fn");
            let p = fn_params_and_ret(&fp.sig);
            push_str(&mut s, p.as_str());
            s
        },
        Type::Pat { type_ } => type_str(type_),
    }
}

/// The texts of a list of types.
fn types_str(ts: &Vec<Type>) -> (r: Vec<String>)
    ensures
        texts(r@) == types_text(ts@),
    decreases ts,
{
    let mut out: Vec<String> = Vec::new();
    let mut i: usize = 0;
    while i < ts.len()
        invariant
            i <= ts@.len(),
            texts(out@) == types_text(ts@.take(i as int)),
        decreases ts@.len() - i,
    {
        assert(decreases_to!(ts => ts@[i as int]));
        let t = type_str(&ts[i]);
        push_text(&mut out, t);
        assert(ts@.take(i + 1).drop_last() =~= ts@.take(i as int));
        i += 1;
    }
    assert(ts@.take(ts@.len() as int) =~= ts@);
    out
}

/// The texts of the trait paths of `dyn` bounds.
fn poly_traits_str(ts: &Vec<PolyTrait>) -> (r: Vec<String>)
    ensures
        texts(r@) == poly_traits_text(ts@),
    decreases ts,
{
    let mut out: Vec<String> = Vec::new();
    let mut i: usize = 0;
    while i < ts.len()
        invariant
            i <= ts@.len(),
            texts(out@) == poly_traits_text(ts@.take(i as int)),
        decreases ts@.len() - i,
    {
        assert(decreases_to!(ts => ts@[i as int].trait_));
        let t = path_str(&ts[i].trait_);
        push_text(&mut out, t);
        assert(ts@.take(i + 1).drop_last() =~= ts@.take(i as int));
        i += 1;
    }
    assert(ts@.take(ts@.len() as int) =~= ts@);
    out
}

/// Render a resolved path with its generic arguments, e.g. `Vec<T>`.
pub(crate) fn path_str(path: &Path) -> (r: String)
    ensures
        r@ == path_text(*path),
    decreases path,
{
    let mut s = copy_str(path.path.as_str());
    let a = generic_args(&path.args);
    push_str(&mut s, a.as_str());
    s
}

/// Optional generic arguments.
fn generic_args(args: &Option<Box<GenericArgs>>) -> (r: String)
    ensures
        r@ == opt_args_text(*args),
    decreases args,
{
    match args {
        None => String::new(),
        Some(b) => generic_args_of(b),
    }
}

/// Generic arguments.
fn generic_args_of(args: &GenericArgs) -> (r: String)
    ensures
        r@ == args_text(*args),
    decreases args,
{
    match args {
        GenericArgs::AngleBracketed { args, constraints } => {
            let mut parts = generic_arg_list(args);
            let cs = constraint_list(constraints);
            let ghost a = texts(parts@);
            let mut i: usize = 0;
            while i < cs.len()
                invariant
                    i <= cs@.len(),
                    texts(parts@) == a + texts(cs@).take(i as int),
                decreases cs@.len() - i,
            {
                let c = copy_str(cs[i].as_str());
                push_text(&mut parts, c);
                assert(texts(cs@).take(i + 1) =~= texts(cs@).take(i as int).push(cs@[i as int]@));
                i += 1;
            }
            assert(texts(cs@).take(cs@.len() as int) =~= texts(cs@));
            if parts.len() == 0 {
                String::new()
            } else {
                let mut s = copy_str("<");
                let j = join_strings(&parts, ", ");
                push_str(&mut s, j.as_str());
                push_str(&mut s, ">");
                s
            }
        },
        GenericArgs::Parenthesized { inputs, output } => {
            let ins = types_str(inputs);
            let mut s = copy_str("(");
            let j = join_strings(&ins, ", ");
            push_str(&mut s, j.as_str());
            push_str(&mut s, ")");
            if let Some(out) = output {
                push_str(&mut s, " -> ");
                let t = type_str(out);
                push_str(&mut s, t.as_str());
            }
            proof {
                assert(s@ =~= args_text(*args));
            }
            s
        },
        GenericArgs::ReturnTypeNotation => copy_str("(..)"),
    }
}

/// The texts of generic arguments.
fn generic_arg_list(args: &Vec<GenericArg>) -> (r: Vec<String>)
    ensures
        texts(r@) == arg_list_text(args@),
    decreases args,
{
    let mut out: Vec<String> = Vec::new();
    let mut i: usize = 0;
    while i < args.len()
        invariant
            i <= args@.len(),
            texts(out@) == arg_list_text(args@.take(i as int)),
        decreases args@.len() - i,
    {
        assert(decreases_to!(args => args@[i as int]));
        let t = generic_arg(&args[i]);
        push_text(&mut out, t);
        assert(args@.take(i + 1).drop_last() =~= args@.take(i as int));
        i += 1;
    }
    assert(args@.take(args@.len() as int) =~= args@);
    out
}

fn generic_arg(arg: &GenericArg) -> (r: String)
    ensures
        r@ == arg_text(*arg),
    decreases arg,
{
    match arg {
        GenericArg::Lifetime(lt) => copy_str(lt.as_str()),
        GenericArg::Type(ty) => type_str(ty),
        GenericArg::Const(c) => copy_str(c.expr.as_str()),
        GenericArg::Infer => copy_str("_"),
    }
}

/// The texts of associated item constraints (e.g. `Item = u32`).
fn constraint_list(cs: &Vec<AssocItemConstraint>) -> (r: Vec<String>)
    ensures
        texts(r@) == constraint_list_text(cs@),
    decreases cs,
{
    let mut out: Vec<String> = Vec::new();
    let mut i: usize = 0;
    while i < cs.len()
        invariant
            i <= cs@.len(),
            texts(out@) == constraint_list_text(cs@.take(i as int)),
        decreases cs@.len() - i,
    {
        let c = &cs[i];
        assert(cs@.take(i + 1).drop_last() =~= cs@.take(i as int));
        assert(cs@.take(i + 1).last() == *c);
        match &c.binding {
            AssocItemConstraintKind::Equality(Term::Type(ty)) => {
                assert(decreases_to!(cs => cs@[i as int].binding));
                let mut s = copy_str(c.name.as_str());
                push_str(&mut s, " = ");
                let t = type_str(ty);
                push_str(&mut s, t.as_str());
                push_text(&mut out, s);
            },
            AssocItemConstraintKind::Equality(Term::Constant(_)) => {},
            AssocItemConstraintKind::Constraint(_) => {
                // A bound like `Item: Copy` is shown with a placeholder type.
                let mut s = copy_str(c.name.as_str());
                push_str(&mut s, " = ");
                push_str(&mut s, "_");
                push_text(&mut out, s);
            },
        }
        i += 1;
    }
    assert(cs@.take(cs@.len() as int) =~= cs@);
    out
}

/// Render a list of bounds joined with ` + `.
#[verifier::rlimit(40)]
pub fn bounds_str(bounds: &Vec<GenericBound>) -> (r: String)
    ensures
        r@ == join(bounds_parts(bounds@), " + "@),
    decreases bounds,
{
    let mut out: Vec<String> = Vec::new();
    let mut i: usize = 0;
    while i < bounds.len()
        invariant
            i <= bounds@.len(),
            texts(out@) == bounds_parts(bounds@.take(i as int)),
        decreases bounds@.len() - i,
    {
        assert(decreases_to!(bounds => bounds@[i as int]));
        let b = bound_str(&bounds[i]);
        proof {
            assert(bounds@.take(i + 1).drop_last() =~= bounds@.take(i as int));
            lemma_non_empty_push(bound_list_text(bounds@.take(i as int)), b@);
        }
        if !b.as_str().is_empty() {
            push_text(&mut out, b);
        }
        i += 1;
    }
    assert(bounds@.take(bounds@.len() as int) =~= bounds@);
    join_strings(&out, " + ")
}

fn bound_str(bound: &GenericBound) -> (r: String)
    ensures
        r@ == bound_text(*bound),
    decreases bound,
{
    match bound {
        GenericBound::TraitBound { trait_, modifier, .. } => {
            let mut s = match modifier {
                TraitBoundModifier::Unmodified => String::new(),
                TraitBoundModifier::Maybe => copy_str("?"),
                TraitBoundModifier::MaybeConst => copy_str("~const "),
            };
            let p = path_str(trait_);
            push_str(&mut s, p.as_str());
            s
        },
        GenericBound::Outlives(lt) => copy_str(lt.as_str()),
        GenericBound::Use(_) => String::new(),
    }
}

/// The `<...>` generic parameter declaration for a definition, or empty.
/// Compiler-synthesized parameters (from `impl Trait` in argument position) are
/// omitted.
pub fn generics_decl(generics: &Generics) -> (r: String)
    ensures
        r@ == generics_text(*generics),
{
    let ps = &generics.params;
    let mut out: Vec<String> = Vec::new();
    let mut i: usize = 0;
    while i < ps.len()
        invariant
            i <= ps@.len(),
            texts(out@) == param_decls(ps@.take(i as int)),
        decreases ps@.len() - i,
    {
        assert(ps@.take(i + 1).drop_last() =~= ps@.take(i as int));
        if !is_synthetic(&ps[i]) {
            let p = param_str(&ps[i]);
            push_text(&mut out, p);
        }
        i += 1;
    }
    assert(ps@.take(ps@.len() as int) =~= ps@);
    if out.len() == 0 {
        String::new()
    } else {
        let mut s = copy_str("<");
        let j = join_strings(&out, ", ");
        push_str(&mut s, j.as_str());
        push_str(&mut s, ">");
        s
    }
}

fn is_synthetic(param: &GenericParamDef) -> (b: bool)
    ensures
        b == is_synthetic_param(*param),
{
    match &param.kind {
        GenericParamDefKind::Type { is_synthetic, .. } => *is_synthetic,
        _ => false,
    }
}

/// Copies each string of `v`.
fn copy_strings(v: &Vec<String>) -> (r: Vec<String>)
    ensures
        texts(r@) == texts(v@),
{
    let mut out: Vec<String> = Vec::new();
    let mut i: usize = 0;
    while i < v.len()
        invariant
            i <= v@.len(),
            texts(out@) == texts(v@).take(i as int),
        decreases v@.len() - i,
    {
        let c = copy_str(v[i].as_str());
        push_text(&mut out, c);
        assert(texts(v@).take(i + 1) =~= texts(v@).take(i as int).push(v@[i as int]@));
        i += 1;
    }
    assert(texts(v@).take(v@.len() as int) =~= texts(v@));
    out
}

fn param_str(param: &GenericParamDef) -> (r: String)
    ensures
        r@ == param_decl_text(*param),
{
    match &param.kind {
        GenericParamDefKind::Lifetime { outlives } => {
            if outlives.len() == 0 {
                copy_str(param.name.as_str())
            } else {
                let mut s = copy_str(param.name.as_str());
                push_str(&mut s, ": ");
                let o = copy_strings(outlives);
                let j = join_strings(&o, " + ");
                push_str(&mut s, j.as_str());
                s
            }
        },
        GenericParamDefKind::Type { bounds, default, .. } => {
            let mut s = copy_str(param.name.as_str());
            if bounds.len() != 0 {
                push_str(&mut s, ": ");
                let b = bounds_str(bounds);
                push_str(&mut s, b.as_str());
            }
            if let Some(def) = default {
                push_str(&mut s, " = ");
                let t = type_str(def);
                push_str(&mut s, t.as_str());
            }
            proof {
                assert(s@ =~= param_decl_text(*param));
            }
            s
        },
        GenericParamDefKind::Const { type_, default } => {
            let mut s = copy_str("const ");
            push_str(&mut s, param.name.as_str());
            push_str(&mut s, ": ");
            let t = type_str(type_);
            push_str(&mut s, t.as_str());
            if let Some(def) = default {
                push_str(&mut s, " = ");
                push_str(&mut s, def.as_str());
            }
            proof {
                assert(s@ =~= param_decl_text(*param));
            }
            s
        },
    }
}

/// The ` where ...` clause for a definition, or empty.
pub fn where_clause(generics: &Generics) -> (r: String)
    ensures
        r@ == where_text(*generics),
{
    let ps = &generics.where_predicates;
    let mut out: Vec<String> = Vec::new();
    let mut i: usize = 0;
    while i < ps.len()
        invariant
            i <= ps@.len(),
            texts(out@) == non_empty(predicate_list_text(ps@.take(i as int))),
        decreases ps@.len() - i,
    {
        let p = predicate_str(&ps[i]);
        proof {
            assert(ps@.take(i + 1).drop_last() =~= ps@.take(i as int));
            lemma_non_empty_push(predicate_list_text(ps@.take(i as int)), p@);
        }
        if !p.as_str().is_empty() {
            push_text(&mut out, p);
        }
        i += 1;
    }
    assert(ps@.take(ps@.len() as int) =~= ps@);
    if out.len() == 0 {
        String::new()
    } else {
        let mut s = copy_str("\nwhere\n    ");
        let j = join_strings(&out, ",\n    ");
        push_str(&mut s, j.as_str());
        s
    }
}

fn predicate_str(pred: &WherePredicate) -> (r: String)
    ensures
        r@ == predicate_text(*pred),
{
    match pred {
        WherePredicate::BoundPredicate { type_, bounds, .. } => {
            let mut s = type_str(type_);
            push_str(&mut s, ": ");
            let b = bounds_str(bounds);
            push_str(&mut s, b.as_str());
            s
        },
        WherePredicate::LifetimePredicate { lifetime, outlives } => {
            if outlives.len() == 0 {
                copy_str(lifetime.as_str())
            } else {
                let mut s = copy_str(lifetime.as_str());
                push_str(&mut s, ": ");
                let o = copy_strings(outlives);
                let j = join_strings(&o, " + ");
                push_str(&mut s, j.as_str());
                s
            }
        },
        WherePredicate::EqPredicate { lhs, rhs } => {
            let mut s = type_str(lhs);
            push_str(&mut s, " = ");
            match rhs {
                Term::Type(ty) => {
                    let t = type_str(ty);
                    push_str(&mut s, t.as_str());
                },
                Term::Constant(c) => push_str(&mut s, c.expr.as_str()),
            }
            s
        },
    }
}

/// The `(args) -> Ret` portion of a function signature.
pub fn fn_params_and_ret(sig: &FunctionSignature) -> (r: String)
    ensures
        r@ == sig_text(*sig),
    decreases sig,
{
    let ins = &sig.inputs;
    let mut params: Vec<String> = Vec::new();
    let mut i: usize = 0;
    while i < ins.len()
        invariant
            i <= ins@.len(),
            texts(params@) == inputs_text(ins@.take(i as int)),
            ins@ == sig.inputs@,
        decreases ins@.len() - i,
    {
        assert(decreases_to!(sig => sig.inputs));
        assert(decreases_to!(sig.inputs => sig.inputs@));
        assert(0 <= i < sig.inputs@.len());
        assert(decreases_to!(sig.inputs@ => sig.inputs@[i as int]));
        assert(decreases_to!(sig.inputs@[i as int] => sig.inputs@[i as int].1));
        let t = type_str(&ins[i].1);
        let p = format_param(ins[i].0.as_str(), &ins[i].1, t);
        push_text(&mut params, p);
        assert(ins@.take(i + 1).drop_last() =~= ins@.take(i as int));
        i += 1;
    }
    assert(ins@.take(ins@.len() as int) =~= ins@);
    let ghost base = texts(params@);
    if sig.is_c_variadic {
        push_text(&mut params, copy_str("..."));
    }
    assert(texts(params@) =~= base + if sig.is_c_variadic {
        seq!["..."@]
    } else {
        seq![]
    });
    let mut s = copy_str("(");
    let j = join_strings(&params, ", ");
    push_str(&mut s, j.as_str());
    push_str(&mut s, ")");
    if let Some(output) = &sig.output {
        push_str(&mut s, " -> ");
        let t = type_str(output);
        push_str(&mut s, t.as_str());
    }
    proof {
        assert(s@ =~= sig_text(*sig));
    }
    s
}

/// Format a single parameter, rendering the receiver as `self` / `&self` /
/// `&mut self`; `ty_text` is the rendered type.
fn format_param(name: &str, ty: &Type, ty_text: String) -> (r: String)
    ensures
        r@ == param_text(name@, *ty, ty_text@),
{
    if str_eq(name, "self") {
        match ty {
            Type::Generic(g) => {
                if str_eq(g.as_str(), "Self") {
                    return copy_str("self");
                }
            },
            Type::BorrowedRef { lifetime, is_mutable, type_ } => {
                let self_ref = match &**type_ {
                    Type::Generic(g) => str_eq(g.as_str(), "Self"),
                    _ => false,
                };
                if self_ref {
                    let mut s = copy_str("&");
                    if let Some(l) = lifetime {
                        push_str(&mut s, l.as_str());
                        push_str(&mut s, " ");
                    }
                    if *is_mutable {
                        push_str(&mut s, "mut ");
                    }
                    push_str(&mut s, "self");
                    proof {
                        assert(s@ =~= param_text(name@, *ty, ty_text@));
                    }
                    return s;
                }
            },
            _ => {},
        }
        let mut s = copy_str("self: ");
        push_str(&mut s, ty_text.as_str());
        return s;
    }
    let mut s = copy_str(name);
    push_str(&mut s, ": ");
    push_str(&mut s, ty_text.as_str());
    s
}

/// A raw pointer is written as Rust source writes it: `*const ` before the
/// pointee for a shared pointer, `*mut ` for a mutable one.
pub proof fn law_raw_pointer_text(is_mutable: bool, t: Type)
    ensures
        type_text(Type::RawPointer { is_mutable, type_: Box::new(t) }) == if is_mutable {
            "*mut "@ + type_text(t)
        } else {
            "*const "@ + type_text(t)
        },
        !is_mutable ==> type_text(Type::RawPointer { is_mutable, type_: Box::new(t) }).take(7) == "*const "@,
        is_mutable ==> type_text(Type::RawPointer { is_mutable, type_: Box::new(t) }).take(5) == "*mut "@,
{
    reveal_strlit("*mut");
    reveal_strlit("*const");
    reveal_strlit(" ");
    reveal_strlit("*mut ");
    reveal_strlit("*const ");
    let r = type_text(Type::RawPointer { is_mutable, type_: Box::new(t) });
    if is_mutable {
        assert(r =~= "*mut "@ + type_text(t));
        assert(r.take(5) =~= "*mut "@);
    } else {
        assert(r =~= "*const "@ + type_text(t));
        assert(r.take(7) =~= "*const "@);
    }
}

/// A reference is written as Rust source writes it: `&`, the lifetime and a
/// space when it names one, `mut ` when it is mutable, then the referent.
pub proof fn law_reference_text(lifetime: Option<String>, is_mutable: bool, t: Type)
    ensures
        type_text(Type::BorrowedRef { lifetime, is_mutable, type_: Box::new(t) }) == seq!['&'] + match lifetime {
            Some(lt) => lt@ + seq![' '],
            None => seq![],
        } + if is_mutable {
            seq!['m', 'u', 't', ' ']
        } else {
            seq![]
        } + type_text(t),
{
    reveal_strlit("&");
    reveal_strlit(" ");
    reveal_strlit("mut ");
    let r = type_text(Type::BorrowedRef { lifetime, is_mutable, type_: Box::new(t) });
    let l = match lifetime {
        Some(lt) => lt@ + seq![' '],
        None => seq![],
    };
    let mu = if is_mutable {
        seq!['m', 'u', 't', ' ']
    } else {
        seq![]
    };
    assert(r =~= seq!['&'] + l + mu + type_text(t));
}

/// A slice is its element type in brackets; an array adds `; ` and its
/// length before the closing bracket.
pub proof fn law_slice_array_text(t: Type, len: String)
    ensures
        type_text(Type::Slice(Box::new(t))) == seq!['['] + type_text(t) + seq![']'],
        type_text(Type::Array { type_: Box::new(t), len }) == seq!['['] + type_text(t) + seq![';', ' '] + len@
            + seq![']'],
{
    reveal_strlit("[");
    reveal_strlit("]");
    reveal_strlit("; ");
    assert(type_text(Type::Slice(Box::new(t))) =~= seq!['['] + type_text(t) + seq![']']);
    assert(type_text(Type::Array { type_: Box::new(t), len }) =~= seq!['['] + type_text(t) + seq![';', ' '] + len@
        + seq![']']);
}
/// A tuple type of one element keeps its trailing comma, `(T,)`, so that it
/// is not read as a parenthesised type; the unit type is `()`.
pub proof fn law_tuple_text(elems: Vec<Type>)
    ensures
        elems@.len() == 1 ==> type_text(Type::Tuple(elems)) == seq!['('] + type_text(elems@[0]) + seq![',', ')'],
        elems@.len() == 0 ==> type_text(Type::Tuple(elems)) == seq!['(', ')'],
{
    reveal_strlit("(");
    reveal_strlit(")");
    reveal_strlit(",");
    if elems@.len() == 1 {
        assert(elems@.drop_last() =~= Seq::<Type>::empty());
        assert(types_text(elems@.drop_last()) =~= Seq::<Seq<char>>::empty());
        assert(elems@.last() == elems@[0]);
        assert(types_text(elems@) =~= seq![type_text(elems@[0])]);
        assert(type_text(Type::Tuple(elems)) =~= seq!['('] + type_text(elems@[0]) + seq![',', ')']);
    } else if elems@.len() == 0 {
        assert(types_text(elems@) =~= Seq::<Seq<char>>::empty());
        assert(type_text(Type::Tuple(elems)) =~= seq!['(', ')']);
    }
}

} // verus!
