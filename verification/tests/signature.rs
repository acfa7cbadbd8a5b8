use rustdoc_public_md::model::rustdoc::{
    FunctionSignature, GenericArg, GenericArgs, GenericBound, GenericParamDef, GenericParamDefKind, Generics, Id, Path,
    TraitBoundModifier, Type, WherePredicate,
};
use rustdoc_public_md::render::signature::{bounds_str, fn_params_and_ret, generics_decl, type_str, where_clause};

fn resolved(name: &str) -> Type {
    Type::ResolvedPath(Path { path: name.to_string(), id: Id(0), args: None })
}

#[test]
fn primitives_and_refs() {
    assert_eq!(type_str(&Type::Primitive("u32".into())), "u32");
    assert_eq!(
        type_str(&Type::BorrowedRef {
            lifetime: Some("'a".into()),
            is_mutable: true,
            type_: Box::new(Type::Primitive("str".into())),
        }),
        "&'a mut str"
    );
}

#[test]
fn tuples_slices_arrays() {
    assert_eq!(type_str(&Type::Tuple(vec![Type::Primitive("u8".into()), resolved("String")])), "(u8, String)");
    assert_eq!(type_str(&Type::Slice(Box::new(Type::Primitive("u8".into())))), "[u8]");
    assert_eq!(
        type_str(&Type::Array { type_: Box::new(Type::Primitive("u8".into())), len: "4".into() }),
        "[u8; 4]"
    );
}

#[test]
fn generic_path_args() {
    let ty = Type::ResolvedPath(Path {
        path: "Vec".into(),
        id: Id(0),
        args: Some(Box::new(GenericArgs::AngleBracketed { args: vec![GenericArg::Type(resolved("String"))], constraints: vec![] })),
    });
    assert_eq!(type_str(&ty), "Vec<String>");
}

fn trait_bound(name: &str) -> GenericBound {
    GenericBound::TraitBound {
        trait_: Path { path: name.to_string(), id: Id(0), args: None },
        generic_params: vec![],
        modifier: TraitBoundModifier::Unmodified,
    }
}

#[test]
fn maybe_sized_and_lifetime_bounds() {
    let bounds = vec![
        GenericBound::TraitBound {
            trait_: Path { path: "Sized".to_string(), id: Id(0), args: None },
            generic_params: vec![],
            modifier: TraitBoundModifier::Maybe,
        },
        GenericBound::Outlives("'a".to_string()),
    ];
    assert_eq!(bounds_str(&bounds), "?Sized + 'a");
}

#[test]
fn generics_and_where_clause() {
    let g = Generics {
        params: vec![
            GenericParamDef { name: "'a".to_string(), kind: GenericParamDefKind::Lifetime { outlives: vec![] } },
            GenericParamDef {
                name: "T".to_string(),
                kind: GenericParamDefKind::Type { bounds: vec![trait_bound("Clone")], default: None, is_synthetic: false },
            },
        ],
        where_predicates: vec![WherePredicate::BoundPredicate {
            type_: Type::Generic("T".to_string()),
            bounds: vec![trait_bound("Send")],
            generic_params: vec![],
        }],
    };
    assert_eq!(generics_decl(&g), "<'a, T: Clone>");
    assert_eq!(where_clause(&g), "\nwhere\n    T: Send");
}

#[test]
fn params_with_self_receiver() {
    let sig = FunctionSignature {
        inputs: vec![
            (
                "self".to_string(),
                Type::BorrowedRef { lifetime: None, is_mutable: false, type_: Box::new(Type::Generic("Self".to_string())) },
            ),
            ("n".to_string(), Type::Primitive("usize".to_string())),
        ],
        output: Some(Type::Primitive("bool".to_string())),
        is_c_variadic: false,
    };
    assert_eq!(fn_params_and_ret(&sig), "(&self, n: usize) -> bool");
}

#[test]
fn impl_trait_and_dyn() {
    assert_eq!(type_str(&Type::ImplTrait(vec![trait_bound("Iterator")])), "impl Iterator");
    assert_eq!(type_str(&Type::Infer), "_");
}

#[test]
fn one_element_tuple_keeps_its_comma() {
    assert_eq!(type_str(&Type::Tuple(vec![])), "()");
    assert_eq!(type_str(&Type::Tuple(vec![Type::Primitive("u8".to_string())])), "(u8,)");
    assert_eq!(
        type_str(&Type::Tuple(vec![Type::Primitive("u8".to_string()), Type::Primitive("bool".to_string())])),
        "(u8, bool)"
    );
}
