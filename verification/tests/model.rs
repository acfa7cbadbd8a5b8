use rustdoc_public_md::model::paths::{assemble, claim_name, numbered_path};
use rustdoc_public_md::model::reachability::discover;
use rustdoc_public_md::model::rustdoc::{Crate, Generics, Id, Item, ItemEnum, Module, Struct, StructKind, Use, Visibility};
use rustdoc_public_md::model::{DocItem, DocKind, DocModel, ItemPath};

fn item(id: u32, name: Option<&str>, visibility: Visibility, inner: ItemEnum) -> Item {
    Item {
        id: Id(id),
        crate_id: 0,
        name: name.map(str::to_string),
        span: None,
        visibility,
        docs: None,
        links: Vec::new(),
        inner,
    }
}

fn krate_with(root: u32, items: Vec<Item>) -> Crate {
    Crate { root: Id(root), index: items, paths: Vec::new(), external_crates: Vec::new(), format_version: 0 }
}

fn module(id: u32, name: &str, children: &[u32]) -> Item {
    module_vis(id, name, children, Visibility::Public)
}

fn module_vis(id: u32, name: &str, children: &[u32], visibility: Visibility) -> Item {
    let inner = ItemEnum::Module(Module { is_crate: false, items: children.iter().map(|&c| Id(c)).collect(), is_stripped: false });
    item(id, Some(name), visibility, inner)
}

fn unit_struct(id: u32, name: &str) -> Item {
    let inner = ItemEnum::Struct(Struct {
        kind: StructKind::Unit,
        generics: Generics { params: Vec::new(), where_predicates: Vec::new() },
        impls: Vec::new(),
    });
    item(id, Some(name), Visibility::Public, inner)
}

fn macro_item(id: u32, name: &str) -> Item {
    item(id, Some(name), Visibility::Public, ItemEnum::Macro(format!("macro_rules! {name} {{}}")))
}

fn reexport(id: u32, name: &str, target: Option<u32>, is_glob: bool) -> Item {
    let inner = ItemEnum::Use(Use { source: name.to_string(), name: name.to_string(), id: target.map(Id), is_glob });
    item(id, None, Visibility::Public, inner)
}

fn joined(p: &ItemPath) -> String {
    p.0.join("::")
}

fn paths_of(d: &[(Id, Vec<ItemPath>)], id: u32) -> Vec<String> {
    d.iter().find(|(i, _)| *i == Id(id)).map(|(_, ps)| ps.iter().map(joined).collect()).unwrap_or_default()
}

/// The discovered full paths of the items named `name`.
fn paths_for(d: &[(Id, Vec<ItemPath>)], krate: &Crate, name: &str) -> Vec<String> {
    d.iter()
        .filter(|(id, _)| krate.index.iter().any(|it| it.id == *id && it.name.as_deref() == Some(name)))
        .flat_map(|(_, ps)| ps.iter().map(joined))
        .collect()
}

fn build(items: Vec<Item>) -> Vec<DocItem> {
    let krate = krate_with(0, items);
    let d = discover(&krate);
    assemble(&krate, d)
}

fn placed(items: &[DocItem], id: u32) -> &DocItem {
    items.iter().find(|i| i.id == Id(id)).unwrap()
}

fn file_of(items: &[DocItem], id: u32) -> String {
    placed(items, id).file.clone().unwrap()
}

#[test]
fn descends_public_modules_and_skips_private() {
    let krate = krate_with(
        0,
        vec![
            module(0, "example", &[90, 58, 89]),
            unit_struct(90, "Foo"),
            module(58, "top", &[43]),
            unit_struct(43, "Bar"),
            module_vis(89, "private", &[74], Visibility::Crate),
            unit_struct(74, "Hidden"),
        ],
    );
    let d = discover(&krate);
    assert_eq!(paths_for(&d, &krate, "Foo"), vec!["example::Foo"]);
    assert_eq!(paths_for(&d, &krate, "Bar"), vec!["example::top::Bar"]);
    // Hidden is inside a private module and never reexported.
    assert!(paths_for(&d, &krate, "Hidden").is_empty());
}

#[test]
fn follows_reexport_from_private_module() {
    let krate = krate_with(
        0,
        vec![
            module(0, "example", &[89, 105]),
            module_vis(89, "private", &[59], Visibility::Crate),
            unit_struct(59, "Reexported"),
            reexport(105, "Reexported", Some(59), false),
        ],
    );
    let d = discover(&krate);
    assert_eq!(paths_for(&d, &krate, "Reexported"), vec!["example::Reexported"]);
}

#[test]
fn renamed_reexport_uses_new_name() {
    let krate = krate_with(
        0,
        vec![
            module(0, "example", &[89, 105]),
            module_vis(89, "private", &[59], Visibility::Crate),
            unit_struct(59, "Original"),
            reexport(105, "Renamed", Some(59), false),
        ],
    );
    let d = discover(&krate);
    assert_eq!(paths_of(&d, 59), vec!["example::Renamed"]);
}

#[test]
fn records_multiple_paths_for_reexported_item() {
    let krate = krate_with(0, vec![module(0, "example", &[90, 105]), unit_struct(90, "Foo"), reexport(105, "Bar", Some(90), false)]);
    let d = discover(&krate);
    let mut paths = paths_of(&d, 90);
    paths.sort();
    assert_eq!(paths, vec!["example::Bar", "example::Foo"]);
}

#[test]
fn glob_reexport_pulls_contents_without_extra_segment() {
    let krate = krate_with(
        0,
        vec![
            module(0, "example", &[89, 105]),
            module_vis(89, "private", &[10, 11], Visibility::Crate),
            unit_struct(10, "A"),
            unit_struct(11, "B"),
            reexport(105, "*", Some(89), true),
        ],
    );
    let d = discover(&krate);
    assert_eq!(paths_of(&d, 10)[0], "example::A");
    assert_eq!(paths_of(&d, 11)[0], "example::B");
}

#[test]
fn breaks_reexport_cycles() {
    let krate = krate_with(
        0,
        vec![
            module(0, "example", &[1, 2]),
            module(1, "a", &[20]),
            module(2, "b", &[21]),
            reexport(20, "*", Some(2), true),
            reexport(21, "*", Some(1), true),
        ],
    );
    let d = discover(&krate);
    assert!(d.iter().any(|(id, _)| *id == Id(1)));
    assert!(d.iter().any(|(id, _)| *id == Id(2)));
}

#[test]
fn root_module_is_lib_md() {
    let items = build(vec![module(0, "example", &[])]);
    assert_eq!(file_of(&items, 0), "example/lib.md");
}

#[test]
fn nested_module_is_mod_md_in_dir() {
    let items = build(vec![module(0, "example", &[58]), module(58, "top", &[])]);
    assert_eq!(file_of(&items, 58), "example/top/mod.md");
}

#[test]
fn type_is_named_file_in_module_dir() {
    let items = build(vec![module(0, "example", &[58]), module(58, "top", &[43]), unit_struct(43, "Bar")]);
    assert_eq!(file_of(&items, 43), "example/top/Bar.md");
}

#[test]
fn inline_items_get_no_file() {
    let items = build(vec![module(0, "example", &[5]), macro_item(5, "make")]);
    assert!(placed(&items, 5).file.is_none());
    assert_eq!(placed(&items, 5).kind, DocKind::Inline);
}

#[test]
fn canonical_is_shortest_path() {
    let items = build(vec![
        module(0, "example", &[58, 105]),
        module(58, "deep", &[90]),
        unit_struct(90, "Foo"),
        reexport(105, "Foo", Some(90), false),
    ]);
    let foo = placed(&items, 90);
    assert_eq!(joined(&foo.canonical), "example::Foo");
    assert_eq!(foo.alternates.len(), 1);
    assert_eq!(joined(&foo.alternates[0]), "example::deep::Foo");
    assert_eq!(file_of(&items, 90), "example/Foo.md");
}

#[test]
fn case_insensitive_collision_is_numbered() {
    let items = build(vec![module(0, "example", &[10, 11]), unit_struct(10, "Foo"), unit_struct(11, "foo")]);
    let f10 = file_of(&items, 10);
    let f11 = file_of(&items, 11);
    assert_ne!(f10.to_lowercase(), f11.to_lowercase());
    // One keeps the plain name, the other is numbered.
    assert!(f11.ends_with("-2.md"), "got {f11}");
}

#[test]
fn collision_numbers_count_up() {
    let items = build(vec![
        module(0, "example", &[10, 11, 12]),
        unit_struct(10, "Foo"),
        unit_struct(11, "foo"),
        unit_struct(12, "FOO"),
    ]);
    assert_eq!(file_of(&items, 10), "example/Foo.md");
    assert_eq!(file_of(&items, 11), "example/foo-2.md");
    assert_eq!(file_of(&items, 12), "example/FOO-3.md");
}

#[test]
fn equal_length_paths_are_ordered_lexicographically() {
    let items = build(vec![
        module(0, "example", &[58, 59]),
        module(58, "b", &[90]),
        module(59, "a", &[105]),
        unit_struct(90, "Foo"),
        reexport(105, "Foo", Some(90), false),
    ]);
    let foo = placed(&items, 90);
    assert_eq!(joined(&foo.canonical), "example::a::Foo");
    assert_eq!(joined(&foo.alternates[0]), "example::b::Foo");
}

#[test]
fn items_come_in_id_order_with_the_root_named_crate_when_unnamed() {
    let mut root = module(7, "x", &[3]);
    root.name = None;
    let krate = krate_with(7, vec![root, unit_struct(3, "A")]);
    let model = DocModel::build(krate);
    let ids: Vec<u32> = model.items().iter().map(|i| i.id.0).collect();
    assert_eq!(ids, vec![3, 7]);
    assert_eq!(joined(&model.items()[0].canonical), "crate::A");
    assert_eq!(model.items()[1].file.as_deref(), Some("crate/lib.md"));
}

#[test]
fn item_path_name_and_module() {
    let p = ItemPath(vec!["a".to_string(), "b".to_string(), "C".to_string()]);
    assert_eq!(p.name(), "C");
    assert_eq!(p.module(), &["a".to_string(), "b".to_string()][..]);
    let short = ItemPath(vec!["a".to_string()]);
    assert!(short.precedes(&p));
    assert!(!p.precedes(&short));
}

#[test]
fn doc_kinds_have_files() {
    assert!(DocKind::Module.has_own_file());
    assert!(DocKind::Type.has_own_file());
    assert!(DocKind::Trait.has_own_file());
    assert!(!DocKind::Inline.has_own_file());
    assert!(!DocKind::Other.has_own_file());
}

#[test]
fn claim_name_counts_takers_of_a_folded_name() {
    let mut used: Vec<(String, usize)> = Vec::new();
    assert_eq!(claim_name(&mut used, String::from("a/foo.md")), 1);
    assert_eq!(claim_name(&mut used, String::from("a/bar.md")), 1);
    assert_eq!(claim_name(&mut used, String::from("a/foo.md")), 2);
    assert_eq!(claim_name(&mut used, String::from("a/foo.md")), 3);
    assert_eq!(used, vec![(String::from("a/foo.md"), 3), (String::from("a/bar.md"), 1)]);
}

#[test]
fn numbered_path_inserts_the_count_before_the_extension() {
    assert_eq!(numbered_path("crate/struct.Foo.md", 2), "crate/struct.Foo-2.md");
    assert_eq!(numbered_path("index.md", 10), "index-10.md");
}
