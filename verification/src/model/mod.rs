//! The documentation model: the publicly accessible items of a crate, each
//! assigned a canonical output location plus any alternate (stub) paths.
//!
//! This is built from a [`rustdoc::Crate`] by [`DocModel::build`] and is the
//! structure the renderer consumes.

pub mod copy;
pub mod paths;
pub mod reachability;
pub mod rustdoc;

use vstd::prelude::*;

use crate::model::rustdoc::{Crate, Id, ItemEnum};
use crate::text::{join, seq_lt, texts};

verus! {

/// A fully-qualified public path from the crate root, including the item's own
/// public name as the final segment (e.g. `["example", "top", "Bar"]`).
pub struct ItemPath(pub Vec<String>);

impl View for ItemPath {
    type V = Seq<Seq<char>>;

    open spec fn view(&self) -> Seq<Seq<char>> {
        texts(self.0@)
    }
}

/// The public name of a path: its last segment (empty for an empty path).
pub open spec fn path_name(p: Seq<Seq<char>>) -> Seq<char> {
    if p.len() == 0 {
        seq![]
    } else {
        p.last()
    }
}

/// The module part of a path: all segments but the last.
pub open spec fn path_module(p: Seq<Seq<char>>) -> Seq<Seq<char>> {
    if p.len() == 0 {
        p
    } else {
        p.drop_last()
    }
}

/// Lexicographic order on segment lists (that of `[String]`).
pub open spec fn segs_lt(a: Seq<Seq<char>>, b: Seq<Seq<char>>) -> bool
    decreases a.len(),
{
    if b.len() == 0 {
        false
    } else if a.len() == 0 {
        true
    } else if a[0] != b[0] {
        seq_lt(a[0], b[0])
    } else {
        segs_lt(a.drop_first(), b.drop_first())
    }
}

/// Order for canonical selection: shorter paths first, then lexicographic.
pub open spec fn path_precedes(a: Seq<Seq<char>>, b: Seq<Seq<char>>) -> bool {
    a.len() < b.len() || (a.len() == b.len() && segs_lt(a, b))
}


/// `segs_lt` is irreflexive.
pub proof fn lemma_segs_lt_irrefl(a: Seq<Seq<char>>)
    ensures
        !segs_lt(a, a),
    decreases a.len(),
{
    if a.len() > 0 {
        lemma_segs_lt_irrefl(a.drop_first());
    }
}

/// `segs_lt` is transitive.
pub proof fn lemma_segs_lt_trans(a: Seq<Seq<char>>, b: Seq<Seq<char>>, c: Seq<Seq<char>>)
    requires
        segs_lt(a, b),
        segs_lt(b, c),
    ensures
        segs_lt(a, c),
    decreases a.len(),
{
    if a.len() > 0 && b.len() > 0 && c.len() > 0 {
        if a[0] == b[0] && b[0] == c[0] {
            lemma_segs_lt_trans(a.drop_first(), b.drop_first(), c.drop_first());
        } else if a[0] == b[0] {
        } else if b[0] == c[0] {
        } else {
            crate::text::lemma_seq_lt_trans(a[0], b[0], c[0]);
            if a[0] == c[0] {
                crate::text::lemma_seq_lt_asym(a[0], b[0]);
            }
        }
    }
}

/// Two different segment lists are ordered one way or the other.
pub proof fn lemma_segs_lt_total(a: Seq<Seq<char>>, b: Seq<Seq<char>>)
    ensures
        segs_lt(a, b) || segs_lt(b, a) || a == b,
    decreases a.len(),
{
    if a.len() > 0 && b.len() > 0 {
        if a[0] == b[0] {
            lemma_segs_lt_total(a.drop_first(), b.drop_first());
            if a.drop_first() == b.drop_first() {
                assert(a =~= seq![a[0]] + a.drop_first());
                assert(b =~= seq![b[0]] + b.drop_first());
            }
        } else {
            crate::text::lemma_seq_lt_total(a[0], b[0]);
        }
    } else if a.len() == 0 && b.len() == 0 {
        assert(a =~= b);
    }
}

/// Canonical order is a strict total order on paths: irreflexive,
/// transitive, and any two different paths are ordered.
pub proof fn lemma_path_precedes_order(a: Seq<Seq<char>>, b: Seq<Seq<char>>, c: Seq<Seq<char>>)
    ensures
        !path_precedes(a, a),
        path_precedes(a, b) && path_precedes(b, c) ==> path_precedes(a, c),
        a != b ==> path_precedes(a, b) || path_precedes(b, a),
        !(path_precedes(a, b) && path_precedes(b, a)),
{
    lemma_segs_lt_irrefl(a);
    lemma_segs_lt_total(a, b);
    if path_precedes(a, b) && path_precedes(b, c) && a.len() == b.len() && b.len() == c.len() {
        lemma_segs_lt_trans(a, b, c);
    }
    if path_precedes(a, b) && path_precedes(b, a) {
        lemma_segs_lt_trans(a, b, a);
    }
}

impl ItemPath {
    /// The item's public name (the last segment).
    pub fn name(&self) -> (r: &str)
        ensures
            r@ == path_name(self@),
    {
        if self.0.len() == 0 {
            proof {
                reveal_strlit("");
            }
            ""
        } else {
            self.0[self.0.len() - 1].as_str()
        }
    }

    /// The module path containing the item (everything but the last segment).
    pub fn module(&self) -> (r: &[String])
        ensures
            texts(r@) == path_module(self@),
    {
        let len = self.0.len();
        let n = if len == 0 {
            0
        } else {
            len - 1
        };
        let r = &self.0.as_slice()[0..n];
        assert(texts(r@) =~= path_module(self@));
        r
    }

    /// Ordering key for canonical selection: shortest path first, then
    /// lexicographic, so the choice is deterministic.
    fn order_key(&self) -> (r: (usize, &[String]))
        ensures
            r.0 == self@.len(),
            texts(r.1@) == self@,
    {
        (self.0.len(), self.0.as_slice())
    }

    /// Whether this path comes before `other` in canonical order.
    pub fn precedes(&self, other: &ItemPath) -> (r: bool)
        ensures
            r == path_precedes(self@, other@),
    {
        let (la, a) = self.order_key();
        let (lb, b) = other.order_key();
        if la != lb {
            return la < lb;
        }
        segments_lt(a, b)
    }
}

/// Whether two segment lists are equal.
pub fn segments_equal(a: &[String], b: &[String]) -> (r: bool)
    ensures
        r == (texts(a@) == texts(b@)),
{
    if a.len() != b.len() {
        return false;
    }
    let mut i: usize = 0;
    while i < a.len()
        invariant
            i <= a@.len(),
            a@.len() == b@.len(),
            forall|j: int| 0 <= j < i ==> a@[j]@ == b@[j]@,
        decreases a@.len() - i,
    {
        if !crate::text::str_eq(a[i].as_str(), b[i].as_str()) {
            assert(texts(a@)[i as int] != texts(b@)[i as int]);
            return false;
        }
        i += 1;
    }
    assert(texts(a@) =~= texts(b@));
    true
}

/// Whether segment list `a` sorts strictly before `b`.
pub fn segments_lt(a: &[String], b: &[String]) -> (r: bool)
    ensures
        r == segs_lt(texts(a@), texts(b@)),
{
    let ghost av = texts(a@);
    let ghost bv = texts(b@);
    let mut i: usize = 0;
    assert(av.skip(0) =~= av);
    assert(bv.skip(0) =~= bv);
    while i < a.len() && i < b.len() && crate::text::str_eq(a[i].as_str(), b[i].as_str())
        invariant
            i <= a@.len(),
            i <= b@.len(),
            av == texts(a@),
            bv == texts(b@),
            segs_lt(av, bv) == segs_lt(av.skip(i as int), bv.skip(i as int)),
        decreases a@.len() - i,
    {
        assert(av.skip(i as int).drop_first() =~= av.skip(i + 1));
        assert(bv.skip(i as int).drop_first() =~= bv.skip(i + 1));
        assert(av.skip(i as int)[0] == a@[i as int]@);
        assert(bv.skip(i as int)[0] == b@[i as int]@);
        i += 1;
    }
    if i == b.len() {
        false
    } else if i == a.len() {
        true
    } else {
        assert(av.skip(i as int)[0] == a@[i as int]@);
        assert(bv.skip(i as int)[0] == b@[i as int]@);
        crate::text::str_lt(a[i].as_str(), b[i].as_str())
    }
}

/// How an item is represented in the output.
#[derive(Debug, Clone, Copy, PartialEq, Eq, Structural)]
pub enum DocKind {
    /// A `mod` — rendered as a directory with a `mod.md` (or `lib.md` at the root).
    Module,
    /// A `struct`, `enum`, or `union` — its own file.
    Type,
    /// A `trait` (or trait alias) — its own file.
    Trait,
    /// A free function, constant, static, type alias, or macro — rendered inline
    /// in its parent module's file.
    Inline,
    /// Anything else that may be reached but is not separately documented.
    Other,
}

/// The documentation kind of an item.
pub open spec fn kind_of(inner: ItemEnum) -> DocKind {
    match inner {
        ItemEnum::Module(_) => DocKind::Module,
        ItemEnum::Struct(_) | ItemEnum::Enum(_) | ItemEnum::Union(_) => DocKind::Type,
        ItemEnum::Trait(_) | ItemEnum::TraitAlias(_) => DocKind::Trait,
        ItemEnum::Function(_) | ItemEnum::Constant { .. } | ItemEnum::Static(_)
        | ItemEnum::TypeAlias(_) | ItemEnum::Macro(_) | ItemEnum::ProcMacro(_) => DocKind::Inline,
        _ => DocKind::Other,
    }
}

/// Whether items of a kind get a file of their own.
pub open spec fn owns_file(k: DocKind) -> bool {
    k == DocKind::Module || k == DocKind::Type || k == DocKind::Trait
}

impl DocKind {
    /// Classify a rustdoc item by its inner kind.
    pub fn of(inner: &ItemEnum) -> (k: DocKind)
        ensures
            k == kind_of(*inner),
    {
        match inner {
            ItemEnum::Module(_) => DocKind::Module,
            ItemEnum::Struct(_) | ItemEnum::Enum(_) | ItemEnum::Union(_) => DocKind::Type,
            ItemEnum::Trait(_) | ItemEnum::TraitAlias(_) => DocKind::Trait,
            ItemEnum::Function(_) | ItemEnum::Constant { .. } | ItemEnum::Static(_)
            | ItemEnum::TypeAlias(_) | ItemEnum::Macro(_) | ItemEnum::ProcMacro(_) => {
                DocKind::Inline
            },
            _ => DocKind::Other,
        }
    }

    /// Whether items of this kind are rendered to their own file.
    pub fn has_own_file(self) -> (b: bool)
        ensures
            b == owns_file(self),
    {
        match self {
            DocKind::Module | DocKind::Type | DocKind::Trait => true,
            _ => false,
        }
    }
}

/// A single publicly accessible item with its resolved placement.
pub struct DocItem {
    pub id: Id,
    /// Public name (the canonical path's final segment; may be a reexport rename).
    pub name: String,
    pub kind: DocKind,
    /// The chosen canonical path.
    pub canonical: ItemPath,
    /// Other public paths to this item; each becomes a stub entry.
    pub alternates: Vec<ItemPath>,
    /// Relative output file for items with their own file; `None` for inline items.
    pub file: Option<String>,
}

/// Where an item inlined from a dependency crate was originally defined.
pub struct ReexportOrigin {
    /// The dependency-side path, crate name first.
    pub path: Vec<String>,
}

impl ReexportOrigin {
    /// The path joined with `::`.
    pub fn display(&self) -> (r: String)
        ensures
            r@ == join(texts(self.path@), "::"@),
    {
        crate::text::join_strings(&self.path, "::")
    }
}

/// `items` places exactly what the walk from the root of `k` discovers: in
/// increasing id order, each item placed from the discovered entry with its
/// id, every discovered id placed, and files assigned in that order.
pub open spec fn model_of(items: Seq<DocItem>, k: Crate) -> bool {
    placed_model(items, k, reachability::discovered(k))
}

/// `items` places exactly the entries of `f`, in increasing id order: each
/// item from the entry with its id, every entry's id placed, and files
/// assigned in that order.
pub open spec fn placed_model(items: Seq<DocItem>, k: Crate, f: reachability::Found) -> bool {
    &&& items.len() == f.len()
    &&& forall|i: int, j: int| 0 <= i < j < items.len() ==> items[i].id.0 < items[j].id.0
    &&& forall|i: int| 0 <= i < items.len() ==> match reachability::found_index(f, (#[trigger] items[i]).id) {
        Some(j) => paths::placed_from(k, items[i], f[j]),
        None => false,
    }
    &&& forall|j: int| #![trigger f[j]] 0 <= j < f.len() ==> exists|i: int|
        0 <= i < items.len() && #[trigger] items[i].id == f[j].0
    &&& paths::files_of(items) == paths::assigned(paths::natural_files(items)).1
}

/// No two documented items share an output file, where every item's
/// natural file holds no `-` (Rust names hold none), does not start with `/`
/// and has a name before its `.md` extension.
pub proof fn law_model_files_distinct(k: Crate, items: Seq<DocItem>, i: int, j: int)
    requires
        model_of(items, k),
        forall|x: int|
            0 <= x < items.len() ==> (#[trigger] paths::natural_files(items)[x] matches Some(b) ==> paths::natural_ok(
                b,
            )),
        0 <= i < j < items.len(),
        items[i].file is Some,
        items[j].file is Some,
    ensures
        items[i].file->0@ != items[j].file->0@,
{
    let bases = paths::natural_files(items);
    assert(paths::files_of(items)[i] == Some(items[i].file->0@));
    assert(paths::files_of(items)[j] == Some(items[j].file->0@));
    paths::lemma_files_some(bases);
    assert(bases[i] is Some);
    assert(bases[j] is Some);
    paths::law_files_distinct(bases, i, j);
}

proof fn lemma_placed_path_public(k: Crate, it: DocItem, e: (Id, Seq<Seq<Seq<char>>>), q: int)
    requires
        paths::placed_from(k, it, e),
        0 <= q < paths::placed_paths(it).len(),
        forall|j: int| 0 <= j < e.1.len() ==> reachability::public_at(k, e.0, #[trigger] e.1[j]),
    ensures
        reachability::public_at(k, it.id, paths::placed_paths(it)[q]),
{
    broadcast use vstd::seq_lib::group_to_multiset_ensures;

    reveal(paths::placed_from);
    let ps = paths::placed_paths(it);
    let x = ps[q];
    assert(ps.contains(x));
    assert(ps.to_multiset().count(x) > 0);
    assert(e.1.to_multiset().count(x) > 0);
    assert(e.1.contains(x));
    let j = choose|j: int| 0 <= j < e.1.len() && e.1[j] == x;
    assert(reachability::public_at(k, e.0, e.1[j]));
}

proof fn lemma_placed_model(k: Crate, dv: reachability::Found, f: reachability::Found, items: Seq<DocItem>)
    requires
        reachability::sorted_by_id(dv, f),
        forall|a: int, b: int| 0 <= a < b < f.len() ==> f[a].0 != f[b].0,
        items.len() == dv.len(),
        forall|i: int| 0 <= i < items.len() ==> paths::placed_from(k, #[trigger] items[i], dv[i]),
        paths::files_of(items) == paths::assigned(paths::natural_files(items)).1,
    ensures
        placed_model(items, k, f),
{
    assert forall|i: int| 0 <= i < items.len() implies (#[trigger] items[i]).id == dv[i].0 by {
        paths::lemma_placed_id(k, items[i], dv[i]);
    }
    assert forall|i: int, j: int| 0 <= i < j < items.len() implies items[i].id.0 < items[j].id.0 by {
        assert(items[i].id == dv[i].0 && items[j].id == dv[j].0);
    }
    assert forall|i: int| 0 <= i < items.len() implies match reachability::found_index(f, (#[trigger] items[i]).id) {
        Some(j) => paths::placed_from(k, items[i], f[j]),
        None => false,
    } by {
        assert(f.contains(dv[i]));
        let j = choose|j: int| 0 <= j < f.len() && f[j] == dv[i];
        reachability::lemma_found_index_id(f, items[i].id);
        if let Some(j2) = reachability::found_index(f, items[i].id) {
            assert(j2 == j);
        }
    }
    assert forall|j: int| #![trigger f[j]] 0 <= j < f.len() implies exists|i: int|
        0 <= i < items.len() && #[trigger] items[i].id == f[j].0 by {
        assert(dv.contains(f[j]));
        let i = choose|i: int| 0 <= i < dv.len() && dv[i] == f[j];
        assert(items[i].id == dv[i].0);
    }
    assert(items.len() == f.len());
    assert(paths::files_of(items) == paths::assigned(paths::natural_files(items)).1);
}

/// The complete model for one crate.
pub struct DocModel {
    pub krate: Crate,
    /// The crate root id.
    pub root: Id,
    /// Documented items, in increasing id order.
    pub items: Vec<DocItem>,
    /// Origins of items inlined from dependency crates, by id.
    pub origins: Vec<(Id, ReexportOrigin)>,
}

impl DocModel {
    /// Build the model from a parsed crate: run reachability analysis, choose
    /// canonical placements, and assign output file paths. Items come in
    /// increasing id order, one for each item the walk from the root reaches.
    pub fn build(krate: Crate) -> (m: DocModel)
        ensures
            m.krate == krate,
            m.root == krate.root,
            m.origins@.len() == 0,
            model_of(m.items@, krate),
            forall|i: int|
                0 <= i < m.items@.len() ==> reachability::public_at(
                    krate,
                    m.items@[i].id,
                    (#[trigger] m.items@[i]).canonical@,
                ),
            forall|i: int, a: int|
                0 <= i < m.items@.len() && 0 <= a < m.items@[i].alternates@.len() ==> reachability::public_at(
                    krate,
                    m.items@[i].id,
                    #[trigger] m.items@[i].alternates@[a]@,
                ),
            forall|id: Id, p: Seq<Seq<char>>|
                #[trigger] reachability::public_at(krate, id, p) ==> exists|i: int|
                    0 <= i < m.items@.len() && #[trigger] m.items@[i].id == id,
    {
        let d = reachability::discover(&krate);
        let ghost dv = reachability::disc_view(d@);
        assert forall|i: int| 0 <= i < d@.len() implies (#[trigger] d@[i]).1@.len() > 0 by {
            assert(dv[i].1.len() > 0);
        }
        let items = paths::assemble(&krate, d);
        proof {
            lemma_placed_model(krate, dv, reachability::discovered(krate), items@);
            assert forall|i: int, q: int|
                0 <= i < items@.len() && 0 <= q < paths::placed_paths(items@[i]).len() implies reachability::public_at(
                krate,
                items@[i].id,
                #[trigger] paths::placed_paths(items@[i])[q],
            ) by {
                lemma_placed_path_public(krate, items@[i], dv[i], q);
                assert(reachability::all_public(krate, dv));
            }
            assert forall|id: Id, p: Seq<Seq<char>>| #[trigger] reachability::public_at(krate, id, p) implies exists|i: int|
                0 <= i < items@.len() && #[trigger] items@[i].id == id by {
                let f = reachability::discovered(krate);
                let j = choose|j: int| 0 <= j < f.len() && #[trigger] f[j].0 == id;
                assert(exists|i: int| 0 <= i < items@.len() && #[trigger] items@[i].id == f[j].0);
            }
            assert forall|i: int| 0 <= i < items@.len() implies reachability::public_at(
                krate,
                items@[i].id,
                (#[trigger] items@[i]).canonical@,
            ) by {
                assert(paths::placed_paths(items@[i])[0] == items@[i].canonical@);
            }
            assert forall|i: int, a: int|
                0 <= i < items@.len() && 0 <= a < items@[i].alternates@.len() implies reachability::public_at(
                krate,
                items@[i].id,
                #[trigger] items@[i].alternates@[a]@,
            ) by {
                assert(paths::placed_paths(items@[i])[a + 1] == items@[i].alternates@[a]@);
            }
        }
        let root = krate.root;
        DocModel { krate, root, items, origins: Vec::new() }
    }

    /// Documented items in deterministic order.
    pub fn items(&self) -> (r: &Vec<DocItem>)
        ensures
            r == &self.items,
    {
        &self.items
    }
}

} // verus!
