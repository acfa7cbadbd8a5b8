use rustdoc_public_md::generate;
use rustdoc_public_md::generate_with_origins;
use rustdoc_public_md::model::rustdoc::{
    Crate, Function, FunctionHeader, FunctionSignature, Generics, Id, Impl, Item, ItemEnum, Module, Path, Span, Struct,
    StructKind, Trait, Type, Visibility,
};
use rustdoc_public_md::model::ReexportOrigin;
use rustdoc_public_md::render::RenderedFile;

fn no_generics() -> Generics {
    Generics { params: Vec::new(), where_predicates: Vec::new() }
}

fn mk(id: u32, name: Option<&str>, docs: Option<&str>, inner: ItemEnum) -> Item {
    Item {
        id: Id(id),
        crate_id: 0,
        name: name.map(str::to_string),
        span: None,
        visibility: Visibility::Public,
        docs: docs.map(str::to_string),
        links: Vec::new(),
        inner,
    }
}

fn module_item(children: &[u32]) -> ItemEnum {
    ItemEnum::Module(Module { is_crate: false, items: children.iter().map(|&c| Id(c)).collect(), is_stripped: false })
}

fn function(inputs: Vec<(String, Type)>, output: Option<Type>) -> ItemEnum {
    ItemEnum::Function(Function {
        sig: FunctionSignature { inputs, output, is_c_variadic: false },
        generics: no_generics(),
        header: FunctionHeader { is_const: false, is_unsafe: false, is_async: false },
        has_body: true,
    })
}

fn sample() -> Crate {
    let mut root = mk(0, Some("example"), Some("Example crate."), module_item(&[1, 2, 4]));
    root.span = Some(Span { filename: "src/lib.rs".to_string(), begin: (1, 1), end: (9, 1) });
    let point = mk(
        1,
        Some("Point"),
        Some("A point.\nSecond line."),
        ItemEnum::Struct(Struct {
            kind: StructKind::Plain { fields: vec![Id(3)], has_stripped_fields: false },
            generics: no_generics(),
            impls: vec![Id(5)],
        }),
    );
    let x = mk(3, Some("x"), Some("X coord."), ItemEnum::StructField(Type::Primitive("u32".to_string())));
    let mut greet = mk(2, Some("greet"), Some("Greets a [`Point`]."), function(vec![], None));
    greet.links = vec![("`Point`".to_string(), Id(1)), ("`Point`".to_string(), Id(1)), ("`String`".to_string(), Id(77))];
    let shape = mk(
        4,
        Some("Shape"),
        None,
        ItemEnum::Trait(Trait {
            is_auto: false,
            is_unsafe: false,
            is_dyn_compatible: true,
            items: vec![Id(6)],
            generics: no_generics(),
            bounds: Vec::new(),
            implementations: vec![Id(5)],
        }),
    );
    let area = mk(
        6,
        Some("area"),
        Some("The area."),
        function(
            vec![(
                "self".to_string(),
                Type::BorrowedRef { lifetime: None, is_mutable: false, type_: Box::new(Type::Generic("Self".to_string())) },
            )],
            Some(Type::Primitive("f64".to_string())),
        ),
    );
    let imp = mk(
        5,
        None,
        None,
        ItemEnum::Impl(Impl {
            is_unsafe: false,
            generics: no_generics(),
            provided_trait_methods: Vec::new(),
            trait_: Some(Path { path: "Shape".to_string(), id: Id(4), args: None }),
            for_: Type::ResolvedPath(Path { path: "Point".to_string(), id: Id(1), args: None }),
            items: vec![],
            is_negative: false,
            is_synthetic: false,
            blanket_impl: None,
        }),
    );
    Crate {
        root: Id(0),
        index: vec![root, point, greet, x, shape, imp, area],
        paths: Vec::new(),
        external_crates: Vec::new(),
        format_version: 0,
    }
}

fn file<'a>(files: &'a [RenderedFile], path: &str) -> &'a str {
    files.iter().find(|f| f.path == path).map(|f| f.contents.as_str()).unwrap_or_else(|| panic!("no file {path}"))
}

#[test]
fn files_are_sorted_by_path() {
    let files = generate(sample());
    let paths: Vec<&str> = files.iter().map(|f| f.path.as_str()).collect();
    assert_eq!(paths, vec!["example/Point.md", "example/Shape.md", "example/lib.md"]);
}

#[test]
fn crate_file_lists_types_and_inline_functions() {
    let files = generate(sample());
    assert_eq!(
        file(&files, "example/lib.md"),
        "# Crate `example`\n\n_Defined at_ `src/lib.rs:1`\n\nExample crate.\n\n## Types\n\n- [`Point`](Point.md) — A point.\n\n## Traits\n\n- [`Shape`](Shape.md)\n\n## Functions\n\n### `greet`\n\n```rust\npub fn greet()\n```\n\nGreets a [`Point`].\n\n[`Point`]: Point.md\n"
    );
}

#[test]
fn type_file_has_definition_and_trait_impls() {
    let files = generate(sample());
    assert_eq!(
        file(&files, "example/Point.md"),
        "# Struct `example::Point`\n\nA point.\nSecond line.\n\n## Definition\n\n```rust\npub struct Point {\n    /// X coord.\n    pub x: u32,\n}\n```\n\n## Trait Implementations\n\n- [`Shape`](Shape.md)\n"
    );
}

#[test]
fn trait_file_has_declaration_methods_and_implementors() {
    let files = generate(sample());
    assert_eq!(
        file(&files, "example/Shape.md"),
        "# Trait `example::Shape`\n\n## Declaration\n\n```rust\npub trait Shape\n```\n\n## Required and Provided Methods\n\n### `area`\n\n```rust\nfn area(&self) -> f64\n```\n\nThe area.\n\n## Implementors\n\n- [`Point`](Point.md)\n"
    );
}

#[test]
fn inlined_items_carry_their_origin() {
    let origins = vec![(Id(2), ReexportOrigin { path: vec!["dep".to_string(), "greet".to_string()] })];
    let files = generate_with_origins(sample(), origins);
    let lib = file(&files, "example/lib.md");
    assert!(lib.contains("### `greet`\n\n_Reexported from_ `dep::greet`.\n\n```rust\npub fn greet()\n```"));
}

#[test]
fn origin_display_joins_with_colons() {
    let o = ReexportOrigin { path: vec!["dep".to_string(), "m".to_string(), "X".to_string()] };
    assert_eq!(o.display(), "dep::m::X");
}

#[test]
fn module_sections_are_alphabetical() {
    let unit = |id: u32, name: &str| {
        mk(
            id,
            Some(name),
            None,
            ItemEnum::Struct(Struct { kind: StructKind::Unit, generics: no_generics(), impls: Vec::new() }),
        )
    };
    let root = mk(0, Some("abc"), None, module_item(&[1, 2, 3, 4, 5]));
    let k = Crate {
        root: Id(0),
        index: vec![
            root,
            unit(1, "Zeta"),
            mk(2, Some("beta"), None, function(vec![], None)),
            unit(3, "Alpha"),
            mk(4, Some("alpha"), None, function(vec![], None)),
            unit(5, "Mid"),
        ],
        paths: Vec::new(),
        external_crates: Vec::new(),
        format_version: 0,
    };
    let files = generate(k);
    let lib = file(&files, "abc/lib.md");
    let types = lib.find("## Types").unwrap();
    let a = lib.find("[`Alpha`]").unwrap();
    let m = lib.find("[`Mid`]").unwrap();
    let z = lib.find("[`Zeta`]").unwrap();
    assert!(types < a && a < m && m < z, "{lib}");
    let fa = lib.find("### `alpha`").unwrap();
    let fb = lib.find("### `beta`").unwrap();
    assert!(z < fa && fa < fb, "{lib}");
}
