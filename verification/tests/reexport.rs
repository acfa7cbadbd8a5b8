use rustdoc_public_md::model::rustdoc::{
    Crate, ExternalCrate, Generics, Id, Item, ItemEnum, ItemSummary, Module, Struct, StructKind, Use, Visibility,
};
use rustdoc_public_md::model::DocModel;
use rustdoc_public_md::reexport::{crate_name, has_id_room, inline_reexports};

fn item(id: u32, name: Option<&str>, inner: ItemEnum) -> Item {
    Item {
        id: Id(id),
        crate_id: 0,
        name: name.map(str::to_string),
        span: None,
        visibility: Visibility::Public,
        docs: None,
        links: Vec::new(),
        inner,
    }
}

fn module(id: u32, name: &str, children: &[u32]) -> Item {
    item(id, Some(name), ItemEnum::Module(Module { is_crate: false, items: children.iter().map(|&c| Id(c)).collect(), is_stripped: false }))
}

fn unit_struct(id: u32, name: &str) -> Item {
    item(
        id,
        Some(name),
        ItemEnum::Struct(Struct {
            kind: StructKind::Unit,
            generics: Generics { params: Vec::new(), where_predicates: Vec::new() },
            impls: Vec::new(),
        }),
    )
}

fn reexport(id: u32, name: &str, target: Option<u32>) -> Item {
    item(id, None, ItemEnum::Use(Use { source: name.to_string(), name: name.to_string(), id: target.map(Id), is_glob: false }))
}

/// A dependency crate `dep` containing `pub struct Widget;` at `dep::Widget`.
fn dep_crate() -> Crate {
    Crate {
        root: Id(100),
        index: vec![module(100, "dep", &[105]), unit_struct(105, "Widget")],
        paths: vec![(Id(105), ItemSummary { crate_id: 0, path: vec!["dep".into(), "Widget".into()] })],
        external_crates: Vec::new(),
        format_version: 0,
    }
}

/// A facade crate with `pub use dep::Widget;` whose target (id 43) is external.
fn facade_crate() -> Crate {
    Crate {
        root: Id(0),
        index: vec![module(0, "facade", &[1]), reexport(1, "Widget", Some(43))],
        paths: vec![(Id(43), ItemSummary { crate_id: 14, path: vec!["dep".into(), "Widget".into()] })],
        external_crates: vec![(14, ExternalCrate { name: "dep".into() })],
        format_version: 0,
    }
}

fn get(k: &Crate, id: Id) -> Option<&Item> {
    k.index.iter().find(|i| i.id == id)
}

#[test]
fn records_origin_for_inlined_item() {
    let mut facade = facade_crate();
    let refs = vec![("dep".to_string(), dep_crate())];
    let origins = inline_reexports(&mut facade, &refs);
    let note = origins.iter().map(|(_, o)| o).find(|o| o.path == vec!["dep".to_string(), "Widget".to_string()]);
    assert!(note.is_some(), "expected an origin for dep::Widget");
    assert_eq!(note.unwrap().display(), "dep::Widget");
}

#[test]
fn inlines_cross_crate_reexport() {
    let mut facade = facade_crate();
    let refs = vec![("dep".to_string(), dep_crate())];
    inline_reexports(&mut facade, &refs);
    let ItemEnum::Use(use_) = &get(&facade, Id(1)).unwrap().inner else {
        panic!("expected use");
    };
    let new_id = use_.id.expect("use should resolve");
    assert!(get(&facade, new_id).is_some(), "inlined item missing");
    let copied = get(&facade, new_id).unwrap();
    assert_eq!(copied.name.as_deref(), Some("Widget"));
    assert!(matches!(copied.inner, ItemEnum::Struct(_)));
}

#[test]
fn inlined_reexport_is_documented_by_model() {
    let mut facade = facade_crate();
    let refs = vec![("dep".to_string(), dep_crate())];
    inline_reexports(&mut facade, &refs);
    let model = DocModel::build(facade);
    let widget = model.items().iter().find(|i| i.name == "Widget").expect("Widget should be documented");
    assert_eq!(widget.canonical.0.join("::"), "facade::Widget");
}

#[test]
fn leaves_unreferenced_dep_items_undocumented() {
    let mut dep = dep_crate();
    dep.index.push(unit_struct(106, "Unexported"));
    let mut facade = facade_crate();
    let refs = vec![("dep".to_string(), dep)];
    inline_reexports(&mut facade, &refs);
    let model = DocModel::build(facade);
    assert!(model.items().iter().all(|i| i.name != "Unexported"));
}

#[test]
fn no_references_is_a_noop() {
    let mut facade = facade_crate();
    let before = facade.index.len();
    inline_reexports(&mut facade, &Vec::new());
    assert_eq!(facade.index.len(), before);
}

#[test]
fn fresh_ids_follow_the_largest_id() {
    let mut facade = facade_crate();
    let refs = vec![("dep".to_string(), dep_crate())];
    let origins = inline_reexports(&mut facade, &refs);
    // Ids 0, 1 and 43 are taken: the copy gets 44.
    assert_eq!(origins.len(), 1);
    assert_eq!(origins[0].0, Id(44));
    assert_eq!(facade.index.len(), 3);
    assert_eq!(facade.index[2].id, Id(44));
}

#[test]
fn reexported_module_brings_its_items() {
    let mut dep = dep_crate();
    dep.index.push(module(110, "sub", &[111]));
    dep.index.push(unit_struct(111, "Gear"));
    dep.paths.push((Id(110), ItemSummary { crate_id: 0, path: vec!["dep".into(), "sub".into()] }));
    let mut facade = facade_crate();
    facade.index[0] = module(0, "facade", &[1, 2]);
    facade.index.push(reexport(2, "sub", Some(50)));
    facade.paths.push((Id(50), ItemSummary { crate_id: 14, path: vec!["dep".into(), "sub".into()] }));
    let refs = vec![("dep".to_string(), dep)];
    let origins = inline_reexports(&mut facade, &refs);
    // Widget (first use) gets 51, then sub gets 52 and Gear 53.
    let ids: Vec<u32> = origins.iter().map(|(id, _)| id.0).collect();
    assert_eq!(ids, vec![51, 52]);
    let sub = get(&facade, Id(52)).unwrap();
    match &sub.inner {
        ItemEnum::Module(m) => assert_eq!(m.items, vec![Id(53)]),
        _ => panic!("expected module"),
    }
    assert_eq!(get(&facade, Id(53)).unwrap().name.as_deref(), Some("Gear"));
    let model = DocModel::build(facade);
    let gear = model.items().iter().find(|i| i.name == "Gear").unwrap();
    assert_eq!(gear.canonical.0.join("::"), "facade::sub::Gear");
}

#[test]
fn unknown_reference_crate_leaves_use_alone() {
    let mut facade = facade_crate();
    let refs = vec![("other".to_string(), dep_crate())];
    let origins = inline_reexports(&mut facade, &refs);
    assert!(origins.is_empty());
    let ItemEnum::Use(use_) = &get(&facade, Id(1)).unwrap().inner else {
        panic!("expected use");
    };
    assert_eq!(use_.id, Some(Id(43)));
}

#[test]
fn crate_name_is_root_name() {
    assert_eq!(crate_name(&dep_crate()).as_deref(), Some("dep"));
    let mut k = dep_crate();
    k.root = Id(999);
    assert_eq!(crate_name(&k), None);
}

#[test]
fn id_room_holds_for_ordinary_crates() {
    let facade = facade_crate();
    assert!(has_id_room(&facade, &vec![("dep".to_string(), dep_crate())]));
    assert!(has_id_room(&facade, &Vec::new()));
}

#[test]
fn id_room_fails_near_the_id_limit() {
    let mut facade = facade_crate();
    facade.paths.push((Id(u32::MAX - 1), ItemSummary { crate_id: 0, path: vec!["facade".into(), "x".into()] }));
    // Inlining `dep::Widget` takes one fresh id, and the next free id is
    // already the largest there is.
    assert!(!has_id_room(&facade, &vec![("dep".to_string(), dep_crate())]));
    // Without references nothing is copied.
    assert!(has_id_room(&facade, &Vec::new()));
}

#[test]
fn id_room_counts_only_what_is_copied() {
    let mut facade = facade_crate();
    facade.paths.push((Id(u32::MAX - 3), ItemSummary { crate_id: 0, path: vec!["facade".into(), "x".into()] }));
    // A large reference crate: only `Widget` is copied, so two ids are left over.
    let mut dep = dep_crate();
    for i in 0..50u32 {
        dep.index.push(unit_struct(200 + i, "Filler"));
    }
    let refs = vec![("dep".to_string(), dep)];
    assert!(has_id_room(&facade, &refs));
    let origins = inline_reexports(&mut facade, &refs);
    assert_eq!(origins.len(), 1);
    assert!(get(&facade, Id(u32::MAX - 2)).is_some());
}

#[test]
fn copied_ids_follow_depth_first_order() {
    // dep::outer holds `inner` (which holds `Deep`) and then `Shallow`.
    let mut dep = dep_crate();
    dep.index.push(module(120, "outer", &[121, 123]));
    dep.index.push(module(121, "inner", &[122]));
    dep.index.push(unit_struct(122, "Deep"));
    dep.index.push(unit_struct(123, "Shallow"));
    dep.paths.push((Id(120), ItemSummary { crate_id: 0, path: vec!["dep".into(), "outer".into()] }));
    let mut facade = Crate {
        root: Id(0),
        index: vec![module(0, "facade", &[1]), reexport(1, "outer", Some(43))],
        paths: vec![(Id(43), ItemSummary { crate_id: 14, path: vec!["dep".into(), "outer".into()] })],
        external_crates: vec![(14, ExternalCrate { name: "dep".into() })],
        format_version: 0,
    };
    let refs = vec![("dep".to_string(), dep)];
    inline_reexports(&mut facade, &refs);
    // outer 44, inner 45, Deep 46 (inner's subtree first), then Shallow 47.
    let named = |id: u32| get(&facade, Id(id)).unwrap().name.clone();
    assert_eq!(named(44).as_deref(), Some("outer"));
    assert_eq!(named(45).as_deref(), Some("inner"));
    assert_eq!(named(46).as_deref(), Some("Deep"));
    assert_eq!(named(47).as_deref(), Some("Shallow"));
}
