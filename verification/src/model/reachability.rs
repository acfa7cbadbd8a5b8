//! Graph reachability: discover every public path to every publicly accessible
//! item, starting from the crate root and following public modules and `pub use`
//! reexports.
//!
//! Visibility matters because the JSON is generated with
//! `--document-private-items` (so reexports out of private modules can be
//! resolved): the index contains private items that are *not* part of the public
//! API. We therefore descend only public modules and reach private-module items
//! solely through reexports. `#[doc(hidden)]` items are already absent from the
//! JSON, so they need no special handling here.

use vstd::prelude::*;

use crate::model::rustdoc::{index_ids, lookup, Crate, Id, Item, ItemEnum, Use, Visibility};
use crate::model::ItemPath;
use crate::text::{copy_str, str_eq, texts};

verus! {

// ---------------------------------------------------------------------------
// Model of the walk

/// Discovered paths: each id with its paths, in order of first discovery.
pub type Found = Seq<(Id, Seq<Seq<Seq<char>>>)>;

/// The state of the walk: what has been found, and which (module, base path)
/// pairs have already been expanded.
pub struct Walk {
    pub found: Found,
    pub expanded: Set<(Id, Seq<Seq<char>>)>,
}

/// Position of the entry for `id`.
pub open spec fn found_index(f: Found, id: Id) -> Option<int>
    decreases f.len(),
{
    if f.len() == 0 {
        None
    } else {
        match found_index(f.drop_last(), id) {
            Some(i) => Some(i),
            None => if f.last().0 == id {
                Some(f.len() - 1)
            } else {
                None
            },
        }
    }
}

/// Record `path` for `id` (no duplicates).
pub open spec fn walk_record(w: Walk, id: Id, path: Seq<Seq<char>>) -> Walk {
    match found_index(w.found, id) {
        Some(i) => if w.found[i].1.contains(path) {
            w
        } else {
            Walk { found: w.found.update(i, (id, w.found[i].1.push(path))), ..w }
        },
        None => Walk { found: w.found.push((id, seq![path])), ..w },
    }
}

/// Number of positions of `ids` whose id is not in `anc`.
pub open spec fn outside(ids: Seq<Id>, anc: Set<Id>) -> nat
    decreases ids.len(),
{
    if ids.len() == 0 {
        0
    } else {
        outside(ids.drop_last(), anc) + if anc.contains(ids.last()) {
            0nat
        } else {
            1nat
        }
    }
}

pub proof fn lemma_outside_insert(ids: Seq<Id>, anc: Set<Id>, x: Id)
    ensures
        outside(ids, anc.insert(x)) <= outside(ids, anc),
        ids.contains(x) && !anc.contains(x) ==> outside(ids, anc.insert(x)) < outside(ids, anc),
    decreases ids.len(),
{
    if ids.len() > 0 {
        lemma_outside_insert(ids.drop_last(), anc, x);
        if ids.contains(x) && !anc.contains(x) && ids.last() != x {
            let i = choose|i: int| 0 <= i < ids.len() && ids[i] == x;
            assert(ids.drop_last()[i] == x);
        }
    }
}

/// Visit a module reached as `path`: record it, then walk its contents.
pub open spec fn walk_module(k: Crate, id: Id, path: Seq<Seq<char>>, anc: Set<Id>, w: Walk) -> Walk
    decreases outside(index_ids(k.index@), anc), 2nat, 0nat,
{
    walk_contents(k, id, path, anc, walk_record(w, id, path))
}

/// Walk the public children of module `id`, placing each under `base`.
pub open spec fn walk_contents(k: Crate, id: Id, base: Seq<Seq<char>>, anc: Set<Id>, w: Walk) -> Walk
    decreases outside(index_ids(k.index@), anc), 1nat, 0nat,
{
    if anc.contains(id) || w.expanded.contains((id, base)) {
        w
    } else {
        let w1 = Walk { expanded: w.expanded.insert((id, base)), ..w };
        match lookup(k.index@, id) {
            Some(item) => match item.inner {
                ItemEnum::Module(m) => {
                    proof {
                        crate::model::rustdoc::lemma_lookup_found(k.index@, id);
                        lemma_outside_insert(index_ids(k.index@), anc, id);
                    }
                    walk_children(k, m.items@, 0, base, anc.insert(id), w1)
                },
                _ => w1,
            },
            None => w1,
        }
    }
}

/// Walk the children `items[i..]` under `base`.
pub open spec fn walk_children(
    k: Crate,
    items: Seq<Id>,
    i: int,
    base: Seq<Seq<char>>,
    anc: Set<Id>,
    w: Walk,
) -> Walk
    decreases outside(index_ids(k.index@), anc), 5nat, items.len() - i,
{
    if i < 0 || i >= items.len() {
        w
    } else {
        walk_children(k, items, i + 1, base, anc, walk_child(k, items[i], base, anc, w))
    }
}

/// Process one child of a module being walked.
pub open spec fn walk_child(k: Crate, cid: Id, base: Seq<Seq<char>>, anc: Set<Id>, w: Walk) -> Walk
    decreases outside(index_ids(k.index@), anc), 4nat, 0nat,
{
    match lookup(k.index@, cid) {
        None => w,
        Some(child) => if !(child.visibility is Public) {
            w
        } else {
            match child.inner {
                ItemEnum::Use(u) => walk_use(k, u, base, anc, w),
                ItemEnum::Module(_) => match child.name {
                    Some(n) => walk_module(k, child.id, base.push(n@), anc, w),
                    None => w,
                },
                _ => match child.name {
                    Some(n) => walk_record(w, child.id, base.push(n@)),
                    None => w,
                },
            }
        },
    }
}

/// Follow a `pub use`, bringing its target into scope under `base`.
pub open spec fn walk_use(k: Crate, u: Use, base: Seq<Seq<char>>, anc: Set<Id>, w: Walk) -> Walk
    decreases outside(index_ids(k.index@), anc), 3nat, 0nat,
{
    match u.id {
        None => w,
        Some(t) => match lookup(k.index@, t) {
            None => w,
            Some(target) => if u.is_glob {
                walk_contents(k, t, base, anc, w)
            } else {
                match target.inner {
                    ItemEnum::Module(_) => walk_module(k, t, base.push(u.name@), anc, w),
                    _ => walk_record(w, t, base.push(u.name@)),
                }
            },
        },
    }
}

/// The name of the crate root (`crate` if it has none).
pub open spec fn root_name(k: Crate) -> Seq<char> {
    match lookup(k.index@, k.root) {
        Some(it) => match it.name {
            Some(n) => n@,
            None => "crate"@,
        },
        None => "crate"@,
    }
}

/// Everything the walk from the root finds, in order of first discovery.
pub open spec fn discovered(k: Crate) -> Found {
    walk_module(
        k,
        k.root,
        seq![root_name(k)],
        Set::empty(),
        Walk { found: seq![], expanded: Set::empty() },
    ).found
}

/// Well-formedness of found paths: no id twice, at least one path and no
/// path twice for an id, and every path starts with the root's name.
pub open spec fn found_wf(f: Found, root: Seq<char>) -> bool {
    &&& forall|i: int, j: int| 0 <= i < j < f.len() ==> f[i].0 != f[j].0
    &&& forall|i: int| 0 <= i < f.len() ==> (#[trigger] f[i]).1.no_duplicates() && f[i].1.len() > 0
    &&& forall|i: int, j: int|
        0 <= i < f.len() && 0 <= j < f[i].1.len() ==> (#[trigger] f[i].1[j]).len() >= 1
            && f[i].1[j][0] == root
}

// ---------------------------------------------------------------------------
// Public paths

/// `c` is listed in module `m` and is public.
pub open spec fn public_child(k: Crate, m: Id, c: Id) -> bool {
    match lookup(k.index@, m) {
        Some(mi) => match mi.inner {
            ItemEnum::Module(md) => md.items@.contains(c) && match lookup(k.index@, c) {
                Some(ci) => ci.visibility is Public,
                None => false,
            },
            _ => false,
        },
        None => false,
    }
}

/// A scope: the contents of module `.0` placed under the path `.1`.
pub type Scope = (Id, Seq<Seq<char>>);

/// The crate root's scope.
pub open spec fn root_scope(k: Crate) -> Scope {
    (k.root, seq![root_name(k)])
}

/// From scope `a`, the public child `c` leads to scope `b`: `c` is a module
/// (its contents under its own name), or a `use` of a module (under the
/// `use`'s name), or a glob `use` (under the same path).
pub open spec fn child_scope(k: Crate, a: Scope, c: Id, b: Scope) -> bool {
    &&& public_child(k, a.0, c)
    &&& match lookup(k.index@, c) {
        Some(ci) => match ci.inner {
            ItemEnum::Module(_) => match ci.name {
                Some(n) => b == (c, a.1.push(n@)),
                None => false,
            },
            ItemEnum::Use(u) => match u.id {
                Some(t) => match lookup(k.index@, t) {
                    Some(ti) => if u.is_glob {
                        b == (t, a.1)
                    } else {
                        ti.inner is Module && b == (t, a.1.push(u.name@))
                    },
                    None => false,
                },
                None => false,
            },
            _ => false,
        },
        None => false,
    }
}

/// From scope `a`, the public child `c` places the item `id` at `p`: a
/// named item under its own name, or the target of a `use` under the
/// `use`'s name.
pub open spec fn child_places(k: Crate, a: Scope, c: Id, id: Id, p: Seq<Seq<char>>) -> bool {
    &&& public_child(k, a.0, c)
    &&& match lookup(k.index@, c) {
        Some(ci) => match ci.inner {
            ItemEnum::Use(u) => !u.is_glob && u.id == Some(id) && lookup(k.index@, id) is Some && p == a.1.push(
                u.name@,
            ),
            _ => c == id && match ci.name {
                Some(n) => p == a.1.push(n@),
                None => false,
            },
        },
        None => false,
    }
}

/// Scope `b` is reached from scope `a` through one public child.
pub open spec fn scope_step(k: Crate, a: Scope, b: Scope) -> bool {
    exists|c: Id| #[trigger] child_scope(k, a, c, b)
}

/// A chain of scopes from the crate root, each reached from the one before.
pub open spec fn scope_chain(k: Crate, ch: Seq<Scope>) -> bool {
    &&& ch.len() >= 1
    &&& ch[0] == root_scope(k)
    &&& forall|i: int| #![trigger ch[i]] 0 <= i < ch.len() - 1 ==> scope_step(k, ch[i], ch[i + 1])
}

/// Scope `a` is reached from the crate root.
pub open spec fn in_scope(k: Crate, a: Scope) -> bool {
    exists|ch: Seq<Scope>| #[trigger] scope_chain(k, ch) && ch.last() == a
}

/// `id` is public at `p`: it is the crate root under the root's name, or it
/// is placed at `p` from a scope reached from the root.
pub open spec fn public_at(k: Crate, id: Id, p: Seq<Seq<char>>) -> bool {
    ||| (id == k.root && p == seq![root_name(k)])
    ||| exists|a: Scope, c: Id| in_scope(k, a) && #[trigger] child_places(k, a, c, id, p)
}

/// Every found path is public.
pub open spec fn all_public(k: Crate, f: Found) -> bool {
    forall|i: int, j: int| 0 <= i < f.len() && 0 <= j < f[i].1.len() ==> public_at(k, f[i].0, #[trigger] f[i].1[j])
}

proof fn lemma_root_scope(k: Crate)
    ensures
        in_scope(k, root_scope(k)),
{
    let ch = seq![root_scope(k)];
    assert(scope_chain(k, ch));
}

proof fn lemma_scope_step(k: Crate, a: Scope, c: Id, b: Scope)
    requires
        in_scope(k, a),
        child_scope(k, a, c, b),
    ensures
        in_scope(k, b),
{
    let ch = choose|ch: Seq<Scope>| #[trigger] scope_chain(k, ch) && ch.last() == a;
    let ch2 = ch.push(b);
    assert forall|i: int| #![trigger ch2[i]] 0 <= i < ch2.len() - 1 implies scope_step(k, ch2[i], ch2[i + 1]) by {
        if i < ch.len() - 1 {
            assert(ch2[i] == ch[i] && ch2[i + 1] == ch[i + 1]);
            assert(scope_step(k, ch[i], ch[i + 1]));
        } else {
            assert(ch2[i] == a && ch2[i + 1] == b);
            assert(child_scope(k, ch2[i], c, ch2[i + 1]));
        }
    }
    assert(scope_chain(k, ch2));
    assert(ch2.last() == b);
}

proof fn lemma_placed_public(k: Crate, a: Scope, c: Id, id: Id, p: Seq<Seq<char>>)
    requires
        in_scope(k, a),
        child_places(k, a, c, id, p),
    ensures
        public_at(k, id, p),
{
}

/// Recording a public path keeps every found path public.
proof fn lemma_record_public(k: Crate, w: Walk, id: Id, path: Seq<Seq<char>>)
    requires
        all_public(k, w.found),
        public_at(k, id, path),
    ensures
        all_public(k, walk_record(w, id, path).found),
{
    lemma_found_index_id(w.found, id);
    let f = w.found;
    let g = walk_record(w, id, path).found;
    assert forall|a: int, b: int| 0 <= a < g.len() && 0 <= b < g[a].1.len() implies public_at(
        k,
        g[a].0,
        #[trigger] g[a].1[b],
    ) by {
        match found_index(f, id) {
            Some(i) => {
                if a == i && !f[i].1.contains(path) && b == f[i].1.len() {
                } else if a == i && !f[i].1.contains(path) {
                    assert(g[a].1[b] == f[i].1[b]);
                } else {
                    assert(g[a] == f[a]);
                }
            },
            None => {
                if a < f.len() {
                    assert(g[a] == f[a]);
                }
            },
        }
    }
}

// ---------------------------------------------------------------------------
// Completeness

/// `id` has an entry.
pub open spec fn is_found(f: Found, id: Id) -> bool {
    found_index(f, id) is Some
}

/// `id` has an entry holding the path `p`.
pub open spec fn is_found_at(f: Found, id: Id, p: Seq<Seq<char>>) -> bool {
    match found_index(f, id) {
        Some(i) => f[i].1.contains(p),
        None => false,
    }
}

/// Module `t` has been expanded under some path.
pub open spec fn expanded_some(w: Walk, t: Id) -> bool {
    exists|b: Seq<Seq<char>>| #[trigger] w.expanded.contains((t, b))
}

/// What processing the child `c` of a module leaves behind: a named item
/// found, a module found and expanded, the target of a `use` found (and
/// expanded when a module), the target of a glob `use` expanded.
pub open spec fn followed(k: Crate, w: Walk, c: Id) -> bool {
    match lookup(k.index@, c) {
        Some(ci) => match ci.inner {
            ItemEnum::Use(u) => match u.id {
                Some(t) => match lookup(k.index@, t) {
                    Some(ti) => if u.is_glob {
                        expanded_some(w, t)
                    } else {
                        is_found(w.found, t) && (ti.inner is Module ==> expanded_some(w, t))
                    },
                    None => true,
                },
                None => true,
            },
            ItemEnum::Module(_) => ci.name is Some ==> is_found(w.found, c) && expanded_some(w, c),
            _ => ci.name is Some ==> is_found(w.found, c),
        },
        None => true,
    }
}

/// Every public child of module `m` has been followed.
pub open spec fn complete(k: Crate, w: Walk, m: Id) -> bool {
    forall|c: Id| #[trigger] public_child(k, m, c) ==> followed(k, w, c)
}

/// The walk's invariant: every module on the stack has been expanded, and
/// every expanded module not on the stack has all its public children
/// followed.
pub open spec fn walk_inv(k: Crate, w: Walk, anc: Set<Id>) -> bool {
    &&& forall|m: Id| #[trigger] anc.contains(m) ==> expanded_some(w, m)
    &&& forall|x: (Id, Seq<Seq<char>>)| #[trigger] w.expanded.contains(x) && !anc.contains(x.0) ==> complete(k, w, x.0)
}

/// `w2` has everything `w` has: entries, their paths, expanded pairs.
pub open spec fn grows(w: Walk, w2: Walk) -> bool {
    &&& forall|id: Id| #[trigger] is_found(w.found, id) ==> is_found(w2.found, id)
    &&& forall|id: Id, p: Seq<Seq<char>>| #[trigger] is_found_at(w.found, id, p) ==> is_found_at(w2.found, id, p)
    &&& forall|x: (Id, Seq<Seq<char>>)| #[trigger] w.expanded.contains(x) ==> w2.expanded.contains(x)
}

proof fn lemma_grows_refl(w: Walk)
    ensures
        grows(w, w),
{
}

proof fn lemma_grows_trans(a: Walk, b: Walk, c: Walk)
    requires
        grows(a, b),
        grows(b, c),
    ensures
        grows(a, c),
{
}

proof fn lemma_followed_mono(k: Crate, w: Walk, w2: Walk, c: Id)
    requires
        grows(w, w2),
        followed(k, w, c),
    ensures
        followed(k, w2, c),
{
    match lookup(k.index@, c) {
        Some(ci) => match ci.inner {
            ItemEnum::Use(u) => match u.id {
                Some(t) => {
                    if expanded_some(w, t) {
                        let b = choose|b: Seq<Seq<char>>| #[trigger] w.expanded.contains((t, b));
                        assert(w2.expanded.contains((t, b)));
                    }
                    if is_found(w.found, t) {
                        assert(is_found(w2.found, t));
                    }
                },
                None => {},
            },
            _ => {
                if expanded_some(w, c) {
                    let b = choose|b: Seq<Seq<char>>| #[trigger] w.expanded.contains((c, b));
                    assert(w2.expanded.contains((c, b)));
                }
                if is_found(w.found, c) {
                    assert(is_found(w2.found, c));
                }
            },
        },
        None => {},
    }
}

proof fn lemma_expanded_mono(w: Walk, w2: Walk, t: Id)
    requires
        grows(w, w2),
        expanded_some(w, t),
    ensures
        expanded_some(w2, t),
{
    let b = choose|b: Seq<Seq<char>>| #[trigger] w.expanded.contains((t, b));
    assert(w2.expanded.contains((t, b)));
}

/// Growing keeps the invariant, for a stack no larger than before.
proof fn lemma_inv_mono(k: Crate, w: Walk, w2: Walk, anc: Set<Id>)
    requires
        walk_inv(k, w, anc),
        grows(w, w2),
        w2.expanded == w.expanded,
    ensures
        walk_inv(k, w2, anc),
{
    assert forall|m: Id| #[trigger] anc.contains(m) implies expanded_some(w2, m) by {
        lemma_expanded_mono(w, w2, m);
    }
    assert forall|x: (Id, Seq<Seq<char>>)| #[trigger] w2.expanded.contains(x) && !anc.contains(x.0) implies complete(
        k,
        w2,
        x.0,
    ) by {
        assert(complete(k, w, x.0));
        assert forall|c: Id| #[trigger] public_child(k, x.0, c) implies followed(k, w2, c) by {
            lemma_followed_mono(k, w, w2, c);
        }
    }
}

/// Recording grows the walk and finds `id` at `path`.
proof fn lemma_record_grows(w: Walk, id: Id, path: Seq<Seq<char>>)
    ensures
        grows(w, walk_record(w, id, path)),
        is_found_at(walk_record(w, id, path).found, id, path),
        is_found(walk_record(w, id, path).found, id),
        walk_record(w, id, path).expanded == w.expanded,
{
    lemma_found_index_id(w.found, id);
    let f = w.found;
    let g = walk_record(w, id, path).found;
    match found_index(f, id) {
        Some(i) => {
            lemma_found_index_same(f, g, i);
            assert(found_index(g, id) == Some(i));
            if !f[i].1.contains(path) {
                assert(g[i].1[g[i].1.len() - 1] == path);
            }
        },
        None => {
            lemma_found_index_push(f, (id, seq![path]));
            assert(g[f.len() as int].1[0] == path);
        },
    }
    assert forall|x: Id| #[trigger] is_found(f, x) implies is_found(g, x) by {
        lemma_found_index_id(f, x);
        match found_index(f, id) {
            Some(i) => lemma_found_index_same(f, g, i),
            None => lemma_found_index_push(f, (id, seq![path])),
        }
    }
    assert forall|x: Id, p: Seq<Seq<char>>| #[trigger] is_found_at(f, x, p) implies is_found_at(g, x, p) by {
        lemma_found_index_id(f, x);
        let j = found_index(f, x)->0;
        match found_index(f, id) {
            Some(i) => {
                lemma_found_index_same(f, g, i);
                if j == i && !f[i].1.contains(path) {
                    let q = choose|q: int| 0 <= q < f[i].1.len() && f[i].1[q] == p;
                    assert(g[i].1[q] == p);
                }
            },
            None => lemma_found_index_push(f, (id, seq![path])),
        }
    }
}

/// Updating an entry in place keeps every id's position.
proof fn lemma_found_index_same(f: Found, g: Found, i: int)
    requires
        0 <= i < f.len(),
        g.len() == f.len(),
        forall|j: int| 0 <= j < f.len() ==> (#[trigger] g[j]).0 == f[j].0,
        forall|j: int| 0 <= j < f.len() && j != i ==> #[trigger] g[j] == f[j],
    ensures
        forall|x: Id| #[trigger] found_index(g, x) == found_index(f, x),
{
    assert forall|x: Id| #[trigger] found_index(g, x) == found_index(f, x) by {
        lemma_found_index_eq(f, g, x);
    }
}

proof fn lemma_found_index_eq(f: Found, g: Found, x: Id)
    requires
        g.len() == f.len(),
        forall|j: int| 0 <= j < f.len() ==> (#[trigger] g[j]).0 == f[j].0,
    ensures
        found_index(g, x) == found_index(f, x),
    decreases f.len(),
{
    if f.len() > 0 {
        assert forall|j: int| 0 <= j < f.drop_last().len() implies (#[trigger] g.drop_last()[j]).0 == f.drop_last()[j].0 by {
            assert(g[j].0 == f[j].0);
        }
        lemma_found_index_eq(f.drop_last(), g.drop_last(), x);
        assert(g.last().0 == f.last().0);
    }
}

/// Appending an entry keeps every earlier id's position.
proof fn lemma_found_index_push(f: Found, e: (Id, Seq<Seq<Seq<char>>>))
    requires
        found_index(f, e.0) is None,
    ensures
        forall|x: Id| #[trigger] found_index(f.push(e), x) == if x == e.0 {
            Some(f.len() as int)
        } else {
            found_index(f, x)
        },
{
    assert forall|x: Id| #[trigger] found_index(f.push(e), x) == if x == e.0 {
        Some(f.len() as int)
    } else {
        found_index(f, x)
    } by {
        assert(f.push(e).drop_last() =~= f);
    }
}

/// From a finished walk whose expanded modules are all complete and which
/// expanded the root, every module of a chain of scopes was expanded.
proof fn lemma_chain_expanded(k: Crate, w: Walk, ch: Seq<Scope>)
    requires
        walk_inv(k, w, Set::empty()),
        expanded_some(w, k.root),
        scope_chain(k, ch),
    ensures
        expanded_some(w, ch.last().0),
    decreases ch.len(),
{
    if ch.len() > 1 {
        let pre = ch.drop_last();
        assert forall|i: int| #![trigger pre[i]] 0 <= i < pre.len() - 1 implies scope_step(k, pre[i], pre[i + 1]) by {
            assert(pre[i] == ch[i] && pre[i + 1] == ch[i + 1]);
            assert(scope_step(k, ch[i], ch[i + 1]));
        }
        assert(scope_chain(k, pre));
        lemma_chain_expanded(k, w, pre);
        let a = pre.last();
        assert(a == ch[ch.len() - 2]);
        assert(scope_step(k, ch[ch.len() - 2], ch[ch.len() - 1]));
        let c = choose|c: Id| #[trigger] child_scope(k, a, c, ch.last());
        let b0 = choose|b: Seq<Seq<char>>| #[trigger] w.expanded.contains((a.0, b));
        assert(w.expanded.contains((a.0, b0)));
        assert(complete(k, w, a.0));
        assert(followed(k, w, c));
    }
}

/// A finished walk finds every public item.
proof fn lemma_walk_complete(k: Crate, w: Walk, id: Id, p: Seq<Seq<char>>)
    requires
        walk_inv(k, w, Set::empty()),
        expanded_some(w, k.root),
        is_found(w.found, k.root),
        public_at(k, id, p),
    ensures
        is_found(w.found, id),
{
    if !(id == k.root && p == seq![root_name(k)]) {
        let (a, c) = choose|a: Scope, c: Id| in_scope(k, a) && #[trigger] child_places(k, a, c, id, p);
        let ch = choose|ch: Seq<Scope>| #[trigger] scope_chain(k, ch) && ch.last() == a;
        lemma_chain_expanded(k, w, ch);
        let b0 = choose|b: Seq<Seq<char>>| #[trigger] w.expanded.contains((a.0, b));
        assert(w.expanded.contains((a.0, b0)));
        assert(complete(k, w, a.0));
        assert(followed(k, w, c));
    }
}

/// A public item other than the crate root is in the index.
proof fn lemma_public_indexed(k: Crate, id: Id, p: Seq<Seq<char>>)
    requires
        public_at(k, id, p),
    ensures
        id == k.root || lookup(k.index@, id) is Some,
{
    if !(id == k.root && p == seq![root_name(k)]) {
        let (a, c) = choose|a: Scope, c: Id| in_scope(k, a) && #[trigger] child_places(k, a, c, id, p);
        assert(child_places(k, a, c, id, p));
    }
}

/// Marking `(id, base)` expanded and pushing `id` on the stack keeps the
/// invariant.
proof fn lemma_inv_expand(k: Crate, w: Walk, anc: Set<Id>, id: Id, base: Seq<Seq<char>>)
    requires
        walk_inv(k, w, anc),
    ensures
        grows(w, Walk { expanded: w.expanded.insert((id, base)), ..w }),
        walk_inv(k, Walk { expanded: w.expanded.insert((id, base)), ..w }, anc.insert(id)),
{
    let w1 = Walk { expanded: w.expanded.insert((id, base)), ..w };
    assert(grows(w, w1));
    assert(w1.expanded.contains((id, base)));
    assert forall|m: Id| #[trigger] anc.insert(id).contains(m) implies expanded_some(w1, m) by {
        if m != id {
            lemma_expanded_mono(w, w1, m);
        }
    }
    assert forall|x: (Id, Seq<Seq<char>>)|
        #[trigger] w1.expanded.contains(x) && !anc.insert(id).contains(x.0) implies complete(k, w1, x.0) by {
        assert(w.expanded.contains(x));
        assert(complete(k, w, x.0));
        assert forall|c: Id| #[trigger] public_child(k, x.0, c) implies followed(k, w1, c) by {
            lemma_followed_mono(k, w, w1, c);
        }
    }
}

/// Marking `(id, base)` expanded keeps the invariant when `id` is no module.
proof fn lemma_inv_expand_leaf(k: Crate, w: Walk, anc: Set<Id>, id: Id, base: Seq<Seq<char>>)
    requires
        walk_inv(k, w, anc),
        !(lookup(k.index@, id) matches Some(it) && it.inner is Module),
    ensures
        grows(w, Walk { expanded: w.expanded.insert((id, base)), ..w }),
        walk_inv(k, Walk { expanded: w.expanded.insert((id, base)), ..w }, anc),
{
    let w1 = Walk { expanded: w.expanded.insert((id, base)), ..w };
    lemma_inv_expand(k, w, anc, id, base);
    assert forall|m: Id| #[trigger] anc.contains(m) implies expanded_some(w1, m) by {
        assert(anc.insert(id).contains(m));
    }
    assert forall|x: (Id, Seq<Seq<char>>)| #[trigger] w1.expanded.contains(x) && !anc.contains(x.0) implies complete(
        k,
        w1,
        x.0,
    ) by {
        if x.0 != id {
            assert(!anc.insert(id).contains(x.0));
        } else {
            assert forall|c: Id| #[trigger] public_child(k, x.0, c) implies followed(k, w1, c) by {}
        }
    }
}

/// Popping `id` off the stack keeps the invariant once its children are all
/// followed.
proof fn lemma_inv_pop(k: Crate, w: Walk, anc: Set<Id>, id: Id)
    requires
        walk_inv(k, w, anc.insert(id)),
        complete(k, w, id),
    ensures
        walk_inv(k, w, anc),
{
    assert forall|m: Id| #[trigger] anc.contains(m) implies expanded_some(w, m) by {
        assert(anc.insert(id).contains(m));
    }
    assert forall|x: (Id, Seq<Seq<char>>)| #[trigger] w.expanded.contains(x) && !anc.contains(x.0) implies complete(
        k,
        w,
        x.0,
    ) by {
        if x.0 != id {
            assert(!anc.insert(id).contains(x.0));
        }
    }
}

// ---------------------------------------------------------------------------
// The walk, followed in proof

/// Every found item is the crate root or in the index.
pub open spec fn keys_ok(k: Crate, f: Found) -> bool {
    forall|j: int| 0 <= j < f.len() ==> (#[trigger] f[j]).0 == k.root || lookup(k.index@, f[j].0) is Some
}

proof fn lemma_record_keys(k: Crate, w: Walk, id: Id, path: Seq<Seq<char>>)
    requires
        keys_ok(k, w.found),
        id == k.root || lookup(k.index@, id) is Some,
    ensures
        keys_ok(k, walk_record(w, id, path).found),
{
    lemma_found_index_id(w.found, id);
    let f = w.found;
    let g = walk_record(w, id, path).found;
    assert forall|j: int| 0 <= j < g.len() implies (#[trigger] g[j]).0 == k.root || lookup(k.index@, g[j].0) is Some by {
        if j < f.len() {
            assert(g[j].0 == f[j].0);
        }
    }
}

proof fn lemma_walk_module(k: Crate, id: Id, path: Seq<Seq<char>>, anc: Set<Id>, w: Walk)
    requires
        walk_inv(k, w, anc),
        keys_ok(k, w.found),
        id == k.root || lookup(k.index@, id) is Some,
    ensures
        walk_inv(k, walk_module(k, id, path, anc, w), anc),
        keys_ok(k, walk_module(k, id, path, anc, w).found),
        grows(w, walk_module(k, id, path, anc, w)),
        is_found_at(walk_module(k, id, path, anc, w).found, id, path),
        is_found(walk_module(k, id, path, anc, w).found, id),
        expanded_some(walk_module(k, id, path, anc, w), id),
    decreases outside(index_ids(k.index@), anc), 2nat, 0nat,
{
    let w1 = walk_record(w, id, path);
    lemma_record_grows(w, id, path);
    lemma_record_keys(k, w, id, path);
    lemma_inv_mono(k, w, w1, anc);
    lemma_walk_contents(k, id, path, anc, w1);
    lemma_grows_trans(w, w1, walk_module(k, id, path, anc, w));
}

proof fn lemma_walk_contents(k: Crate, id: Id, base: Seq<Seq<char>>, anc: Set<Id>, w: Walk)
    requires
        walk_inv(k, w, anc),
        keys_ok(k, w.found),
    ensures
        walk_inv(k, walk_contents(k, id, base, anc, w), anc),
        keys_ok(k, walk_contents(k, id, base, anc, w).found),
        grows(w, walk_contents(k, id, base, anc, w)),
        expanded_some(walk_contents(k, id, base, anc, w), id),
    decreases outside(index_ids(k.index@), anc), 1nat, 0nat,
{
    lemma_grows_refl(w);
    if anc.contains(id) {
    } else if w.expanded.contains((id, base)) {
    } else {
        let w1 = Walk { expanded: w.expanded.insert((id, base)), ..w };
        assert(w1.expanded.contains((id, base)));
        match lookup(k.index@, id) {
            Some(item) => match item.inner {
                ItemEnum::Module(m) => {
                    crate::model::rustdoc::lemma_lookup_found(k.index@, id);
                    lemma_outside_insert(index_ids(k.index@), anc, id);
                    assert(index_ids(k.index@).contains(id));
                    lemma_inv_expand(k, w, anc, id, base);
                    lemma_walk_children(k, m.items@, 0, base, anc.insert(id), w1, id);
                    let w2 = walk_children(k, m.items@, 0, base, anc.insert(id), w1);
                    assert forall|c: Id| #[trigger] public_child(k, id, c) implies followed(k, w2, c) by {
                        let j = choose|j: int| 0 <= j < m.items@.len() && m.items@[j] == c;
                        assert(public_child(k, id, m.items@[j]));
                    }
                    lemma_inv_pop(k, w2, anc, id);
                    lemma_grows_trans(w, w1, w2);
                    lemma_expanded_mono(w1, w2, id);
                },
                _ => lemma_inv_expand_leaf(k, w, anc, id, base),
            },
            None => lemma_inv_expand_leaf(k, w, anc, id, base),
        }
    }
}

proof fn lemma_walk_children(k: Crate, items: Seq<Id>, i: int, base: Seq<Seq<char>>, anc: Set<Id>, w: Walk, m: Id)
    requires
        walk_inv(k, w, anc),
        keys_ok(k, w.found),
        0 <= i,
        match lookup(k.index@, m) {
            Some(mi) => match mi.inner {
                ItemEnum::Module(md) => md.items@ == items,
                _ => false,
            },
            None => false,
        },
    ensures
        walk_inv(k, walk_children(k, items, i, base, anc, w), anc),
        keys_ok(k, walk_children(k, items, i, base, anc, w).found),
        grows(w, walk_children(k, items, i, base, anc, w)),
        forall|j: int|
            i <= j < items.len() && #[trigger] public_child(k, m, items[j]) ==> followed(
                k,
                walk_children(k, items, i, base, anc, w),
                items[j],
            ),
    decreases outside(index_ids(k.index@), anc), 5nat, items.len() - i,
{
    if i >= items.len() {
        lemma_grows_refl(w);
    } else {
        let w1 = walk_child(k, items[i], base, anc, w);
        lemma_walk_child(k, items[i], base, anc, w, m);
        lemma_walk_children(k, items, i + 1, base, anc, w1, m);
        let w2 = walk_children(k, items, i + 1, base, anc, w1);
        lemma_grows_trans(w, w1, w2);
        if public_child(k, m, items[i]) {
            lemma_followed_mono(k, w1, w2, items[i]);
        }
    }
}

proof fn lemma_walk_child(k: Crate, cid: Id, base: Seq<Seq<char>>, anc: Set<Id>, w: Walk, m: Id)
    requires
        walk_inv(k, w, anc),
        keys_ok(k, w.found),
    ensures
        walk_inv(k, walk_child(k, cid, base, anc, w), anc),
        keys_ok(k, walk_child(k, cid, base, anc, w).found),
        grows(w, walk_child(k, cid, base, anc, w)),
        public_child(k, m, cid) ==> followed(k, walk_child(k, cid, base, anc, w), cid),
    decreases outside(index_ids(k.index@), anc), 4nat, 0nat,
{
    lemma_grows_refl(w);
    match lookup(k.index@, cid) {
        None => {},
        Some(child) => {
            crate::model::rustdoc::lemma_lookup_found(k.index@, cid);
            if child.visibility is Public {
                match child.inner {
                    ItemEnum::Use(u) => lemma_walk_use(k, u, base, anc, w),
                    ItemEnum::Module(_) => match child.name {
                        Some(n) => lemma_walk_module(k, child.id, base.push(n@), anc, w),
                        None => {},
                    },
                    _ => match child.name {
                        Some(n) => {
                            lemma_record_keys(k, w, child.id, base.push(n@));
                            lemma_record_grows(w, child.id, base.push(n@));
                            lemma_inv_mono(k, w, walk_record(w, child.id, base.push(n@)), anc);
                        },
                        None => {},
                    },
                }
            }
        },
    }
}

proof fn lemma_walk_use(k: Crate, u: Use, base: Seq<Seq<char>>, anc: Set<Id>, w: Walk)
    requires
        walk_inv(k, w, anc),
        keys_ok(k, w.found),
    ensures
        walk_inv(k, walk_use(k, u, base, anc, w), anc),
        keys_ok(k, walk_use(k, u, base, anc, w).found),
        grows(w, walk_use(k, u, base, anc, w)),
        match u.id {
            Some(t) => match lookup(k.index@, t) {
                Some(ti) => if u.is_glob {
                    expanded_some(walk_use(k, u, base, anc, w), t)
                } else {
                    is_found(walk_use(k, u, base, anc, w).found, t) && (ti.inner is Module ==> expanded_some(
                        walk_use(k, u, base, anc, w),
                        t,
                    ))
                },
                None => true,
            },
            None => true,
        },
    decreases outside(index_ids(k.index@), anc), 3nat, 0nat,
{
    lemma_grows_refl(w);
    match u.id {
        None => {},
        Some(t) => match lookup(k.index@, t) {
            None => {},
            Some(target) => {
                if u.is_glob {
                    lemma_walk_contents(k, t, base, anc, w);
                } else {
                    match target.inner {
                        ItemEnum::Module(_) => lemma_walk_module(k, t, base.push(u.name@), anc, w),
                        _ => {
                            lemma_record_keys(k, w, t, base.push(u.name@));
                            lemma_record_grows(w, t, base.push(u.name@));
                            lemma_inv_mono(k, w, walk_record(w, t, base.push(u.name@)), anc);
                        },
                    }
                }
            },
        },
    }
}

/// Every publicly reachable item is discovered: the crate root under its
/// name, and every item placed from a scope reached from the root through
/// public modules and public reexports (glob, renamed, or from a private
/// module), however many times its modules are re-entered.
pub proof fn law_discovered_complete(k: Crate, id: Id, p: Seq<Seq<char>>)
    requires
        public_at(k, id, p),
    ensures
        exists|j: int| 0 <= j < discovered(k).len() && #[trigger] discovered(k)[j].0 == id,
{
    let w0 = Walk { found: seq![], expanded: Set::empty() };
    let w = walk_module(k, k.root, seq![root_name(k)], Set::empty(), w0);
    assert(walk_inv(k, w0, Set::empty()));
    assert(keys_ok(k, w0.found));
    lemma_walk_module(k, k.root, seq![root_name(k)], Set::empty(), w0);
    lemma_walk_complete(k, w, id, p);
    lemma_found_index_id(w.found, id);
    assert(w.found == discovered(k));
    let i = found_index(w.found, id)->0;
    assert(discovered(k)[i].0 == id);
}

/// The crate root is discovered under its own name, and every other
/// discovered item is in the index.
pub proof fn law_discovered_root(k: Crate)
    ensures
        exists|j: int|
            0 <= j < discovered(k).len() && #[trigger] discovered(k)[j].0 == k.root && discovered(k)[j].1.contains(
                seq![root_name(k)],
            ),
        keys_ok(k, discovered(k)),
{
    let w0 = Walk { found: seq![], expanded: Set::empty() };
    let w = walk_module(k, k.root, seq![root_name(k)], Set::empty(), w0);
    assert(walk_inv(k, w0, Set::empty()));
    assert(keys_ok(k, w0.found));
    lemma_walk_module(k, k.root, seq![root_name(k)], Set::empty(), w0);
    lemma_found_index_id(w.found, k.root);
    assert(w.found == discovered(k));
    assert(is_found_at(w.found, k.root, seq![root_name(k)]));
    let i = found_index(w.found, k.root)->0;
    assert(discovered(k)[i].0 == k.root && discovered(k)[i].1.contains(seq![root_name(k)]));
}

// ---------------------------------------------------------------------------
// The walker

/// The view of the exec discoveries.
pub open spec fn disc_view(d: Seq<(Id, Vec<ItemPath>)>) -> Found {
    d.map_values(|e: (Id, Vec<ItemPath>)| (e.0, paths_view(e.1@)))
}

/// The view of a list of paths.
pub open spec fn paths_view(ps: Seq<ItemPath>) -> Seq<Seq<Seq<char>>> {
    ps.map_values(|p: ItemPath| p@)
}

/// The view of the exec expanded list.
pub open spec fn expanded_view(e: Seq<(Id, Vec<String>)>) -> Set<(Id, Seq<Seq<char>>)> {
    Set::new(|x: (Id, Seq<Seq<char>>)| exists|i: int| 0 <= i < e.len() && e[i].0 == x.0 && texts(e[i].1@) == x.1)
}

struct Walker {
    discoveries: Vec<(Id, Vec<ItemPath>)>,
    /// Module ids on the current DFS stack, to break reexport cycles.
    ancestors: Vec<Id>,
    /// (module id, path) pairs already expanded, to avoid redundant work on
    /// diamond-shaped reexports.
    expanded: Vec<(Id, Vec<String>)>,
}

impl Walker {
    spec fn walk(&self) -> Walk {
        Walk { found: disc_view(self.discoveries@), expanded: expanded_view(self.expanded@) }
    }

    spec fn anc(&self) -> Set<Id> {
        self.ancestors@.to_set()
    }
}

/// Whether two paths are equal.
fn same_path(a: &Vec<String>, b: &Vec<String>) -> (r: bool)
    ensures
        r == (texts(a@) == texts(b@)),
{
    if a.len() != b.len() {
        assert(texts(a@).len() == a@.len() && texts(b@).len() == b@.len());
        return false;
    }
    let mut i: usize = 0;
    while i < a.len()
        invariant
            i <= a@.len(),
            a@.len() == b@.len(),
            forall|j: int| 0 <= j < i ==> a@[j]@ == b@[j]@,
        decreases a@.len() - i,
    {
        if !str_eq(a[i].as_str(), b[i].as_str()) {
            assert(texts(a@)[i as int] != texts(b@)[i as int]);
            return false;
        }
        i += 1;
    }
    assert(texts(a@) =~= texts(b@));
    true
}

/// A copy of a path.
pub(crate) fn copy_path(p: &Vec<String>) -> (r: Vec<String>)
    ensures
        texts(r@) == texts(p@),
{
    let mut out: Vec<String> = Vec::new();
    let mut i: usize = 0;
    while i < p.len()
        invariant
            i <= p@.len(),
            texts(out@) == texts(p@).take(i as int),
        decreases p@.len() - i,
    {
        crate::text::push_text(&mut out, copy_str(p[i].as_str()));
        assert(texts(p@).take(i + 1) =~= texts(p@).take(i as int).push(p@[i as int]@));
        i += 1;
    }
    assert(texts(p@).take(p@.len() as int) =~= texts(p@));
    out
}

/// `base` with `segment` appended.
fn extend(base: &Vec<String>, segment: &str) -> (r: Vec<String>)
    ensures
        texts(r@) == texts(base@).push(segment@),
{
    let mut path = copy_path(base);
    crate::text::push_text(&mut path, copy_str(segment));
    path
}

fn is_public(visibility: &Visibility) -> (b: bool)
    ensures
        b == (*visibility is Public),
{
    match visibility {
        Visibility::Public => true,
        _ => false,
    }
}

/// Position of the entry for `id` in the discoveries.
fn entry_index(d: &Vec<(Id, Vec<ItemPath>)>, id: Id) -> (r: Option<usize>)
    ensures
        match r {
            Some(i) => found_index(disc_view(d@), id) == Some(i as int) && i < d@.len(),
            None => found_index(disc_view(d@), id) is None,
        },
{
    let ghost f = disc_view(d@);
    let mut i: usize = 0;
    while i < d.len()
        invariant
            i <= d@.len(),
            f == disc_view(d@),
            found_index(f.take(i as int), id) is None,
        decreases d@.len() - i,
    {
        assert(f.take(i + 1).drop_last() =~= f.take(i as int));
        if d[i].0 == id {
            proof {
                lemma_found_index_prefix(f, id, i as int);
            }
            return Some(i);
        }
        i += 1;
    }
    assert(f.take(d@.len() as int) =~= f);
    None
}

pub proof fn lemma_found_index_id(f: Found, id: Id)
    ensures
        found_index(f, id) matches Some(i) ==> 0 <= i < f.len() && f[i].0 == id,
        found_index(f, id) is None ==> forall|j: int| 0 <= j < f.len() ==> f[j].0 != id,
    decreases f.len(),
{
    if f.len() > 0 {
        lemma_found_index_id(f.drop_last(), id);
        assert forall|j: int| 0 <= j < f.len() - 1 implies f[j] == f.drop_last()[j] by {}
    }
}

proof fn lemma_found_index_prefix(f: Found, id: Id, i: int)
    requires
        0 <= i < f.len(),
        found_index(f.take(i), id) is None,
        f[i].0 == id,
    ensures
        found_index(f, id) == Some(i),
    decreases f.len(),
{
    if i < f.len() - 1 {
        assert(f.drop_last().take(i) =~= f.take(i));
        lemma_found_index_prefix(f.drop_last(), id, i);
    } else {
        assert(f.drop_last() =~= f.take(i));
    }
}

/// Whether `list` holds `path`.
fn has_path(list: &Vec<ItemPath>, path: &Vec<String>) -> (r: bool)
    ensures
        r == paths_view(list@).contains(texts(path@)),
{
    let mut i: usize = 0;
    while i < list.len()
        invariant
            i <= list@.len(),
            forall|j: int| 0 <= j < i ==> paths_view(list@)[j] != texts(path@),
        decreases list@.len() - i,
    {
        if same_path(&list[i].0, path) {
            assert(paths_view(list@)[i as int] == texts(path@));
            return true;
        }
        i += 1;
    }
    false
}

/// Recording a path that starts with the root keeps the found paths
/// well-formed.
proof fn lemma_record_wf(w: Walk, id: Id, path: Seq<Seq<char>>, root: Seq<char>)
    requires
        found_wf(w.found, root),
        path.len() >= 1,
        path[0] == root,
    ensures
        found_wf(walk_record(w, id, path).found, root),
{
    lemma_found_index_id(w.found, id);
    let f = w.found;
    let g = walk_record(w, id, path).found;
    match found_index(f, id) {
        Some(i) => {
            if !f[i].1.contains(path) {
                assert forall|a: int, b: int| 0 <= a < b < g.len() implies g[a].0 != g[b].0 by {
                    assert(g[a].0 == f[a].0 && g[b].0 == f[b].0);
                }
                assert forall|a: int| 0 <= a < g.len() implies (#[trigger] g[a]).1.no_duplicates() && g[a].1.len() > 0 by {
                    if a == i {
                        assert forall|x: int, y: int| 0 <= x < y < g[a].1.len() implies g[a].1[x] != g[a].1[y] by {
                            if y == g[a].1.len() - 1 {
                                assert(f[i].1[x] == g[a].1[x]);
                            } else {
                                assert(f[i].1[x] == g[a].1[x] && f[i].1[y] == g[a].1[y]);
                            }
                        }
                    }
                }
                assert forall|a: int, b: int|
                    0 <= a < g.len() && 0 <= b < g[a].1.len() implies (#[trigger] g[a].1[b]).len() >= 1
                        && g[a].1[b][0] == root by {
                    if a == i && b < f[i].1.len() {
                        assert(g[a].1[b] == f[i].1[b]);
                    }
                }
            }
        },
        None => {
            assert forall|a: int, b: int| 0 <= a < b < g.len() implies g[a].0 != g[b].0 by {
                if b < f.len() {
                    assert(g[a].0 == f[a].0 && g[b].0 == f[b].0);
                }
            }
            assert forall|a: int| 0 <= a < g.len() implies (#[trigger] g[a]).1.no_duplicates() && g[a].1.len() > 0 by {
                if a < f.len() {
                    assert(g[a] == f[a]);
                }
            }
            assert forall|a: int, b: int|
                0 <= a < g.len() && 0 <= b < g[a].1.len() implies (#[trigger] g[a].1[b]).len() >= 1
                    && g[a].1[b][0] == root by {
                if a < f.len() {
                    assert(g[a] == f[a]);
                }
            }
        },
    }
}

/// Record `id` as reachable at `path` (the full path including its own name).
fn record(st: &mut Walker, id: Id, path: Vec<String>, Ghost(root): Ghost<Seq<char>>)
    requires
        found_wf(old(st).walk().found, root),
        texts(path@).len() >= 1,
        texts(path@)[0] == root,
    ensures
        found_wf(final(st).walk().found, root),
        final(st).walk() == walk_record(old(st).walk(), id, texts(path@)),
        final(st).ancestors@ == old(st).ancestors@,
{
    let ghost w = st.walk();
    proof {
        lemma_record_wf(w, id, texts(path@), root);
    }
    match entry_index(&st.discoveries, id) {
        Some(i) => {
            proof {
                lemma_found_index_id(w.found, id);
            }
            if !has_path(&st.discoveries[i].1, &path) {
                let ghost d0 = st.discoveries@;
                let (eid, mut list) = st.discoveries.remove(i);
                let ghost before = paths_view(list@);
                list.push(ItemPath(path));
                assert(paths_view(list@) =~= before.push(texts(path@)));
                st.discoveries.insert(i, (eid, list));
                assert(st.discoveries@ =~= d0.update(i as int, (eid, list)));
                assert(disc_view(st.discoveries@) =~= w.found.update(
                    i as int,
                    (id, w.found[i as int].1.push(texts(path@))),
                ));
            }
        },
        None => {
            let mut list: Vec<ItemPath> = Vec::new();
            list.push(ItemPath(path));
            assert(paths_view(list@) =~= seq![texts(path@)]);
            st.discoveries.push((id, list));
            assert(disc_view(st.discoveries@) =~= w.found.push((id, seq![texts(path@)])));
        },
    }
}

/// Whether `(id, base)` has been expanded.
fn was_expanded(e: &Vec<(Id, Vec<String>)>, id: Id, base: &Vec<String>) -> (r: bool)
    ensures
        r == expanded_view(e@).contains((id, texts(base@))),
{
    let mut i: usize = 0;
    while i < e.len()
        invariant
            i <= e@.len(),
            forall|j: int| 0 <= j < i ==> !(e@[j].0 == id && texts(e@[j].1@) == texts(base@)),
        decreases e@.len() - i,
    {
        if e[i].0 == id && same_path(&e[i].1, base) {
            return true;
        }
        i += 1;
    }
    false
}

/// Whether `id` is on the ancestor stack.
fn is_ancestor(a: &Vec<Id>, id: Id) -> (r: bool)
    ensures
        r == a@.to_set().contains(id),
{
    let mut i: usize = 0;
    while i < a.len()
        invariant
            i <= a@.len(),
            forall|j: int| 0 <= j < i ==> a@[j] != id,
        decreases a@.len() - i,
    {
        if a[i] == id {
            assert(a@.contains(id));
            return true;
        }
        i += 1;
    }
    false
}

/// Visit a module reached as `path` (its own name is the last segment):
/// record it, then walk its contents.
fn visit_module(k: &Crate, st: &mut Walker, id: Id, path: Vec<String>, Ghost(root): Ghost<Seq<char>>)
    requires
        found_wf(old(st).walk().found, root),
        texts(path@).len() >= 1,
        texts(path@)[0] == root,
        all_public(*k, old(st).walk().found),
        public_at(*k, id, texts(path@)),
        in_scope(*k, (id, texts(path@))),
        walk_inv(*k, old(st).walk(), old(st).anc()),
    ensures
        found_wf(final(st).walk().found, root),
        all_public(*k, final(st).walk().found),
        walk_inv(*k, final(st).walk(), old(st).anc()),
        grows(old(st).walk(), final(st).walk()),
        is_found_at(final(st).walk().found, id, texts(path@)),
        is_found(final(st).walk().found, id),
        expanded_some(final(st).walk(), id),
        final(st).walk() == walk_module(*k, id, texts(path@), old(st).anc(), old(st).walk()),
        final(st).ancestors@ == old(st).ancestors@,
    decreases outside(index_ids(k.index@), old(st).anc()), 2nat, 0nat,
{
    let base = copy_path(&path);
    let ghost w0 = st.walk();
    proof {
        lemma_record_public(*k, st.walk(), id, texts(path@));
    }
    record(st, id, path, Ghost(root));
    proof {
        lemma_record_grows(w0, id, texts(base@));
        lemma_inv_mono(*k, w0, st.walk(), st.anc());
    }
    let ghost w1 = st.walk();
    visit_contents(k, st, id, base, Ghost(root));
    proof {
        lemma_grows_trans(w0, w1, st.walk());
    }
}

/// Walk the public children of module `id`, placing each under `base` (which
/// for a normal module is its own path, and for a glob import is the
/// importing module's path).
fn visit_contents(k: &Crate, st: &mut Walker, id: Id, base: Vec<String>, Ghost(root): Ghost<Seq<char>>)
    requires
        found_wf(old(st).walk().found, root),
        texts(base@).len() >= 1,
        texts(base@)[0] == root,
        all_public(*k, old(st).walk().found),
        in_scope(*k, (id, texts(base@))),
        walk_inv(*k, old(st).walk(), old(st).anc()),
    ensures
        found_wf(final(st).walk().found, root),
        all_public(*k, final(st).walk().found),
        walk_inv(*k, final(st).walk(), old(st).anc()),
        grows(old(st).walk(), final(st).walk()),
        expanded_some(final(st).walk(), id),
        final(st).walk() == walk_contents(*k, id, texts(base@), old(st).anc(), old(st).walk()),
        final(st).ancestors@ == old(st).ancestors@,
    decreases outside(index_ids(k.index@), old(st).anc()), 1nat, 0nat,
{
    proof {
        lemma_grows_refl(st.walk());
    }
    if is_ancestor(&st.ancestors, id) {
        return;  // cycle
    }
    if was_expanded(&st.expanded, id, &base) {
        assert(st.walk().expanded.contains((id, texts(base@))));
        return;  // already expanded at this exact path
    }
    let ghost anc0 = st.anc();
    let ghost w0 = st.walk();
    let key = copy_path(&base);
    st.expanded.push((id, key));
    proof {
        assert(expanded_view(st.expanded@) =~= w0.expanded.insert((id, texts(base@)))) by {
            assert forall|x: (Id, Seq<Seq<char>>)|
                expanded_view(st.expanded@).contains(x) implies w0.expanded.insert(
                (id, texts(base@)),
            ).contains(x) by {
                let i = choose|i: int|
                    0 <= i < st.expanded@.len() && st.expanded@[i].0 == x.0 && texts(
                        st.expanded@[i].1@,
                    ) == x.1;
                if i < st.expanded@.len() - 1 {
                    assert(old(st).expanded@[i] == st.expanded@[i]);
                }
            }
            assert forall|x: (Id, Seq<Seq<char>>)|
                w0.expanded.insert((id, texts(base@))).contains(x) implies expanded_view(
                st.expanded@,
            ).contains(x) by {
                if x != (id, texts(base@)) {
                    let i = choose|i: int|
                        0 <= i < old(st).expanded@.len() && old(st).expanded@[i].0 == x.0
                            && texts(old(st).expanded@[i].1@) == x.1;
                    assert(st.expanded@[i] == old(st).expanded@[i]);
                } else {
                    assert(st.expanded@[st.expanded@.len() - 1].0 == x.0);
                }
            }
        }
        lemma_inv_expand(*k, w0, anc0, id, texts(base@));
        assert(st.walk().expanded.contains((id, texts(base@))));
    }
    let ghost w1 = st.walk();
    match k.get(id) {
        Some(item) => match &item.inner {
            ItemEnum::Module(module) => {
                proof {
                    crate::model::rustdoc::lemma_lookup_found(k.index@, id);
                    lemma_outside_insert(index_ids(k.index@), anc0, id);
                    assert(index_ids(k.index@).contains(id));
                }
                st.ancestors.push(id);
                proof {
                    assert forall|x: Id| st.anc().contains(x) implies anc0.insert(id).contains(
                        x,
                    ) by {
                        let j = choose|j: int| 0 <= j < st.ancestors@.len() && st.ancestors@[j] == x;
                        if j < st.ancestors@.len() - 1 {
                            assert(old(st).ancestors@[j] == x);
                        }
                    }
                    assert forall|x: Id| anc0.insert(id).contains(x) implies st.anc().contains(
                        x,
                    ) by {
                        if x == id {
                            assert(st.ancestors@[st.ancestors@.len() - 1] == x);
                        } else {
                            let j = choose|j: int|
                                0 <= j < old(st).ancestors@.len() && old(st).ancestors@[j] == x;
                            assert(st.ancestors@[j] == x);
                        }
                    }
                    assert(st.anc() =~= anc0.insert(id));
                }
                visit_children(k, st, &module.items, 0, &base, Ghost(root), Ghost(id));
                proof {
                    assert forall|c: Id| #[trigger] public_child(*k, id, c) implies followed(*k, st.walk(), c) by {
                        let j = choose|j: int| 0 <= j < module.items@.len() && module.items@[j] == c;
                        assert(public_child(*k, id, module.items@[j]));
                    }
                    lemma_inv_pop(*k, st.walk(), anc0, id);
                    lemma_grows_trans(w0, w1, st.walk());
                    lemma_expanded_mono(w1, st.walk(), id);
                }
                st.ancestors.pop();
                assert(st.ancestors@ =~= old(st).ancestors@);
            },
            _ => {
                proof {
                    lemma_inv_expand_leaf(*k, w0, anc0, id, texts(base@));
                }
            },
        },
        None => {
            proof {
                lemma_inv_expand_leaf(*k, w0, anc0, id, texts(base@));
            }
        },
    }
}

/// Walk the children `items[i..]` of a module under `base`.
fn visit_children(
    k: &Crate,
    st: &mut Walker,
    items: &Vec<Id>,
    i: usize,
    base: &Vec<String>,
    Ghost(root): Ghost<Seq<char>>,
    Ghost(m): Ghost<Id>,
)
    requires
        i <= items@.len(),
        found_wf(old(st).walk().found, root),
        texts(base@).len() >= 1,
        texts(base@)[0] == root,
        all_public(*k, old(st).walk().found),
        in_scope(*k, (m, texts(base@))),
        match lookup(k.index@, m) {
            Some(mi) => match mi.inner {
                ItemEnum::Module(md) => md.items@ == items@,
                _ => false,
            },
            None => false,
        },
        walk_inv(*k, old(st).walk(), old(st).anc()),
    ensures
        found_wf(final(st).walk().found, root),
        all_public(*k, final(st).walk().found),
        walk_inv(*k, final(st).walk(), old(st).anc()),
        grows(old(st).walk(), final(st).walk()),
        forall|j: int|
            i <= j < items@.len() && #[trigger] public_child(*k, m, items@[j]) ==> followed(*k, final(st).walk(), items@[j]),
        final(st).walk() == walk_children(
            *k,
            items@,
            i as int,
            texts(base@),
            old(st).anc(),
            old(st).walk(),
        ),
        final(st).ancestors@ == old(st).ancestors@,
    decreases outside(index_ids(k.index@), old(st).anc()), 5nat, items@.len() - i,
{
    if i >= items.len() {
        proof {
            lemma_grows_refl(st.walk());
        }
        return;
    }
    let ghost w0 = st.walk();
    let ghost anc0 = st.anc();
    assert(items@.contains(items@[i as int]));
    visit_child(k, st, items[i], base, Ghost(root), Ghost(m));
    let ghost w1 = st.walk();
    assert(st.anc() == anc0);
    visit_children(k, st, items, i + 1, base, Ghost(root), Ghost(m));
    proof {
        lemma_grows_trans(w0, w1, st.walk());
        if public_child(*k, m, items@[i as int]) {
            lemma_followed_mono(*k, w1, st.walk(), items@[i as int]);
        }
    }
}

/// Process one child item of a module being walked.
fn visit_child(
    k: &Crate,
    st: &mut Walker,
    cid: Id,
    base: &Vec<String>,
    Ghost(root): Ghost<Seq<char>>,
    Ghost(m): Ghost<Id>,
)
    requires
        found_wf(old(st).walk().found, root),
        texts(base@).len() >= 1,
        texts(base@)[0] == root,
        all_public(*k, old(st).walk().found),
        in_scope(*k, (m, texts(base@))),
        match lookup(k.index@, m) {
            Some(mi) => match mi.inner {
                ItemEnum::Module(md) => md.items@.contains(cid),
                _ => false,
            },
            None => false,
        },
        walk_inv(*k, old(st).walk(), old(st).anc()),
    ensures
        found_wf(final(st).walk().found, root),
        all_public(*k, final(st).walk().found),
        walk_inv(*k, final(st).walk(), old(st).anc()),
        grows(old(st).walk(), final(st).walk()),
        public_child(*k, m, cid) ==> followed(*k, final(st).walk(), cid),
        final(st).walk() == walk_child(*k, cid, texts(base@), old(st).anc(), old(st).walk()),
        final(st).ancestors@ == old(st).ancestors@,
    decreases outside(index_ids(k.index@), old(st).anc()), 4nat, 0nat,
{
    proof {
        lemma_grows_refl(st.walk());
    }
    let ghost w0 = st.walk();
    let child = match k.get(cid) {
        Some(c) => c,
        None => {
            return;
        },
    };
    if !is_public(&child.visibility) {
        // Non-public items are only in the JSON because of
        // `--document-private-items`; skip unless reached via a reexport.
        return;
    }
    proof {
        crate::model::rustdoc::lemma_lookup_found(k.index@, cid);
        assert(public_child(*k, m, cid));
    }
    let ghost a: Scope = (m, texts(base@));
    match &child.inner {
        // Reexports are followed regardless of where they point; the import
        // itself must be public.
        ItemEnum::Use(use_) => {
            follow_use(k, st, use_, base, Ghost(root), Ghost(m), Ghost(cid));
        },
        // Public modules are descended.
        ItemEnum::Module(_) => {
            if let Some(name) = &child.name {
                let path = extend(base, name.as_str());
                proof {
                    assert(child_places(*k, a, cid, cid, texts(path@)));
                    lemma_placed_public(*k, a, cid, cid, texts(path@));
                    assert(child_scope(*k, a, cid, (cid, texts(path@))));
                    lemma_scope_step(*k, a, cid, (cid, texts(path@)));
                }
                visit_module(k, st, child.id, path, Ghost(root));
            }
        },
        // Other public items are leaves placed at this location.
        _ => {
            if let Some(name) = &child.name {
                let path = extend(base, name.as_str());
                proof {
                    assert(child_places(*k, a, cid, cid, texts(path@)));
                    lemma_placed_public(*k, a, cid, cid, texts(path@));
                    lemma_record_public(*k, st.walk(), child.id, texts(path@));
                }
                let ghost p = texts(path@);
                record(st, child.id, path, Ghost(root));
                proof {
                    lemma_record_grows(w0, cid, p);
                    lemma_inv_mono(*k, w0, st.walk(), st.anc());
                }
            }
        },
    }
}

/// Follow a `pub use`, bringing the target into scope under `base`.
fn follow_use(
    k: &Crate,
    st: &mut Walker,
    use_: &Use,
    base: &Vec<String>,
    Ghost(root): Ghost<Seq<char>>,
    Ghost(m): Ghost<Id>,
    Ghost(cid): Ghost<Id>,
)
    requires
        found_wf(old(st).walk().found, root),
        texts(base@).len() >= 1,
        texts(base@)[0] == root,
        all_public(*k, old(st).walk().found),
        in_scope(*k, (m, texts(base@))),
        public_child(*k, m, cid),
        match lookup(k.index@, cid) {
            Some(ci) => ci.inner == ItemEnum::Use(*use_),
            None => false,
        },
        walk_inv(*k, old(st).walk(), old(st).anc()),
    ensures
        found_wf(final(st).walk().found, root),
        all_public(*k, final(st).walk().found),
        walk_inv(*k, final(st).walk(), old(st).anc()),
        grows(old(st).walk(), final(st).walk()),
        match use_.id {
            Some(t) => match lookup(k.index@, t) {
                Some(ti) => if use_.is_glob {
                    expanded_some(final(st).walk(), t)
                } else {
                    is_found(final(st).walk().found, t) && (ti.inner is Module ==> expanded_some(final(st).walk(), t))
                },
                None => true,
            },
            None => true,
        },
        final(st).walk() == walk_use(*k, *use_, texts(base@), old(st).anc(), old(st).walk()),
        final(st).ancestors@ == old(st).ancestors@,
    decreases outside(index_ids(k.index@), old(st).anc()), 3nat, 0nat,
{
    proof {
        lemma_grows_refl(st.walk());
    }
    let ghost w0 = st.walk();
    let target_id = match use_.id {
        Some(t) => t,
        None => {
            return;  // reexport of a primitive; nothing to document
        },
    };
    let target = match k.get(target_id) {
        Some(t) => t,
        None => {
            return;  // target lives in another crate
        },
    };
    let ghost a: Scope = (m, texts(base@));
    if use_.is_glob {
        // `use path::*` — the target is a module whose public contents are
        // pulled directly into `base` (no new path segment).
        let b = copy_path(base);
        proof {
            assert(child_scope(*k, a, cid, (target_id, texts(b@))));
            lemma_scope_step(*k, a, cid, (target_id, texts(b@)));
        }
        visit_contents(k, st, target_id, b, Ghost(root));
        return;
    }
    let path = extend(base, use_.name.as_str());
    proof {
        assert(child_places(*k, a, cid, target_id, texts(path@)));
        lemma_placed_public(*k, a, cid, target_id, texts(path@));
    }
    match &target.inner {
        ItemEnum::Module(_) => {
            proof {
                assert(child_scope(*k, a, cid, (target_id, texts(path@))));
                lemma_scope_step(*k, a, cid, (target_id, texts(path@)));
            }
            visit_module(k, st, target_id, path, Ghost(root))
        },
        _ => {
            proof {
                lemma_record_public(*k, st.walk(), target_id, texts(path@));
            }
            let ghost p = texts(path@);
            record(st, target_id, path, Ghost(root));
            proof {
                lemma_record_grows(w0, target_id, p);
                lemma_inv_mono(*k, w0, st.walk(), st.anc());
            }
        },
    }
}


/// Whether the entries' ids strictly increase.
pub open spec fn ids_increasing(f: Found) -> bool {
    forall|i: int, j: int| 0 <= i < j < f.len() ==> f[i].0.0 < f[j].0.0
}

/// `r` holds exactly the entries of `f`, in increasing id order.
pub open spec fn sorted_by_id(r: Found, f: Found) -> bool {
    &&& ids_increasing(r)
    &&& r.len() == f.len()
    &&& forall|i: int| 0 <= i < r.len() ==> #[trigger] f.contains(r[i])
    &&& forall|i: int| 0 <= i < f.len() ==> #[trigger] r.contains(f[i])
}

/// The name of the crate root, as a string.
fn root_name_exec(krate: &Crate) -> (r: String)
    ensures
        r@ == root_name(*krate),
{
    match krate.get(krate.root) {
        Some(item) => match &item.name {
            Some(n) => copy_str(n.as_str()),
            None => copy_str("crate"),
        },
        None => copy_str("crate"),
    }
}

/// Places `e` into `r` (sorted by id) at the position its id calls for.
fn insert_by_id(r: &mut Vec<(Id, Vec<ItemPath>)>, e: (Id, Vec<ItemPath>))
    requires
        ids_increasing(disc_view(old(r)@)),
        forall|j: int| 0 <= j < old(r)@.len() ==> old(r)@[j].0 != e.0,
    ensures
        ids_increasing(disc_view(final(r)@)),
        final(r)@.len() == old(r)@.len() + 1,
        forall|j: int| 0 <= j < old(r)@.len() ==> disc_view(final(r)@).contains(
            #[trigger] disc_view(old(r)@)[j],
        ),
        disc_view(final(r)@).contains((e.0, paths_view(e.1@))),
        forall|j: int| 0 <= j < final(r)@.len() ==> (#[trigger] disc_view(final(r)@)[j] == (e.0, paths_view(e.1@))
            || disc_view(old(r)@).contains(disc_view(final(r)@)[j])),
{
    let ghost old_v = disc_view(r@);
    let mut pos: usize = 0;
    while pos < r.len() && r[pos].0.0 < e.0.0
        invariant
            pos <= r@.len(),
            forall|j: int| 0 <= j < pos ==> r@[j].0.0 < e.0.0,
        decreases r@.len() - pos,
    {
        pos += 1;
    }
    let ghost ev = (e.0, paths_view(e.1@));
    r.insert(pos, e);
    let ghost nv = disc_view(r@);
    assert(nv =~= old_v.insert(pos as int, ev));
    assert forall|i: int, j: int| 0 <= i < j < nv.len() implies nv[i].0.0 < nv[j].0.0 by {
        if j < pos {
        } else if j == pos {
            assert(nv[i] == old_v[i]);
        } else if i < pos {
            assert(nv[i] == old_v[i] && nv[j] == old_v[j - 1]);
            if pos < old_v.len() {
                assert(old_v[pos as int].0.0 >= e.0.0);
                assert(old_v[pos as int].0 != e.0);
            }
        } else if i == pos {
            assert(nv[j] == old_v[j - 1]);
            assert(old_v[pos as int].0.0 >= e.0.0);
            assert(old_v[pos as int].0 != e.0);
        } else {
            assert(nv[i] == old_v[i - 1] && nv[j] == old_v[j - 1]);
        }
    }
    assert forall|j: int| 0 <= j < old_v.len() implies nv.contains(#[trigger] old_v[j]) by {
        if j < pos {
            assert(nv[j] == old_v[j]);
        } else {
            assert(nv[j + 1] == old_v[j]);
        }
    }
    assert(nv[pos as int] == ev);
    assert forall|j: int| 0 <= j < nv.len() implies (#[trigger] nv[j] == ev || old_v.contains(nv[j])) by {
        if j < pos {
            assert(nv[j] == old_v[j]);
        } else if j > pos {
            assert(nv[j] == old_v[j - 1]);
        }
    }
}

/// Discover all public paths for every reachable item, grouped by id in
/// increasing id order.
pub fn discover(krate: &Crate) -> (r: Vec<(Id, Vec<ItemPath>)>)
    ensures
        sorted_by_id(disc_view(r@), discovered(*krate)),
        found_wf(disc_view(r@), root_name(*krate)),
        found_wf(discovered(*krate), root_name(*krate)),
        all_public(*krate, discovered(*krate)),
        all_public(*krate, disc_view(r@)),
        forall|id: Id, p: Seq<Seq<char>>| #[trigger] public_at(*krate, id, p) ==> exists|j: int|
            0 <= j < r@.len() && #[trigger] r@[j].0 == id,
        forall|id: Id, p: Seq<Seq<char>>| #[trigger] public_at(*krate, id, p) ==> exists|j: int|
            0 <= j < discovered(*krate).len() && #[trigger] discovered(*krate)[j].0 == id,
        exists|j: int|
            0 <= j < discovered(*krate).len() && #[trigger] discovered(*krate)[j].0 == krate.root
                && discovered(*krate)[j].1.contains(seq![root_name(*krate)]),
        forall|j: int|
            0 <= j < discovered(*krate).len() ==> (#[trigger] discovered(*krate)[j]).0 == krate.root || lookup(
                krate.index@,
                discovered(*krate)[j].0,
            ) is Some,
{
    let mut walker = Walker { discoveries: Vec::new(), ancestors: Vec::new(), expanded: Vec::new() };
    let root = root_name_exec(krate);
    let ghost rn = root@;
    let mut path: Vec<String> = Vec::new();
    crate::text::push_text(&mut path, root);
    assert(walker.anc() =~= Set::<Id>::empty());
    assert(walker.walk().found =~= Seq::<(Id, Seq<Seq<Seq<char>>>)>::empty());
    assert(walker.walk().expanded =~= Set::<(Id, Seq<Seq<char>>)>::empty());
    assert(texts(path@) =~= seq![root_name(*krate)]);
    proof {
        lemma_root_scope(*krate);
    }
    visit_module(krate, &mut walker, krate.root, path, Ghost(rn));
    let ghost f = disc_view(walker.discoveries@);
    assert(f == discovered(*krate));
    proof {
        lemma_found_index_id(f, krate.root);
        assert forall|id: Id, p: Seq<Seq<char>>| #[trigger] public_at(*krate, id, p) implies exists|j: int|
            0 <= j < f.len() && #[trigger] f[j].0 == id by {
            lemma_walk_complete(*krate, walker.walk(), id, p);
            lemma_found_index_id(f, id);
        }
        assert forall|j: int| 0 <= j < f.len() implies (#[trigger] f[j]).0 == krate.root || lookup(
            krate.index@,
            f[j].0,
        ) is Some by {
            assert(f[j].1.len() > 0);
            assert(public_at(*krate, f[j].0, f[j].1[0]));
            lemma_public_indexed(*krate, f[j].0, f[j].1[0]);
        }
    }
    let mut d = walker.discoveries;
    let mut r: Vec<(Id, Vec<ItemPath>)> = Vec::new();
    while d.len() > 0
        invariant
            found_wf(f, rn),
            disc_view(d@) == f.take(d@.len() as int),
            d@.len() <= f.len(),
            ids_increasing(disc_view(r@)),
            r@.len() + d@.len() == f.len(),
            forall|i: int| 0 <= i < r@.len() ==> f.skip(d@.len() as int).contains(#[trigger] disc_view(r@)[i]),
            forall|i: int| d@.len() <= i < f.len() ==> disc_view(r@).contains(#[trigger] f[i]),
        decreases d@.len(),
    {
        let ghost n = d@.len();
        let ghost d_old = d@;
        assert(disc_view(d_old)[n - 1] == f.take(n as int)[n - 1]);
        let e = d.pop().unwrap();
        assert(e == d_old[n - 1]);
        assert(disc_view(d@) =~= f.take(n - 1));
        assert((e.0, paths_view(e.1@)) == f[n - 1]);
        let ghost r0 = disc_view(r@);
        assert forall|j: int| 0 <= j < r@.len() implies r@[j].0 != e.0 by {
            assert(r0[j].0 == r@[j].0);
            let k = choose|k: int| 0 <= k < f.skip(n as int).len() && f.skip(n as int)[k] == r0[j];
            assert(f[k + n] == r0[j]);
        }
        insert_by_id(&mut r, e);
        let ghost r1 = disc_view(r@);
        assert forall|i: int| 0 <= i < r1.len() implies f.skip(n - 1).contains(#[trigger] r1[i]) by {
            if r1[i] == f[n - 1] {
                assert(f.skip(n - 1)[0] == f[n - 1]);
            } else {
                assert(r0.contains(r1[i]));
                let j = choose|j: int| 0 <= j < r0.len() && r0[j] == r1[i];
                assert(f.skip(n as int).contains(r0[j]));
                let k = choose|k: int| 0 <= k < f.skip(n as int).len() && f.skip(n as int)[k] == r0[j];
                assert(f.skip(n - 1)[k + 1] == r1[i]);
            }
        }
        assert forall|i: int| n - 1 <= i < f.len() implies r1.contains(#[trigger] f[i]) by {
            if i >= n {
                assert(r0.contains(f[i]));
                let j = choose|j: int| 0 <= j < r0.len() && r0[j] == f[i];
                assert(r1.contains(r0[j]));
            }
        }
    }
    let ghost rv = disc_view(r@);
    assert(f.skip(0) =~= f);
    assert forall|i: int| 0 <= i < rv.len() implies f.contains(#[trigger] rv[i]) by {
        assert(f.skip(0).contains(rv[i]));
    }
    proof {
        assert forall|i: int| 0 <= i < rv.len() implies (#[trigger] rv[i]).1.no_duplicates() && rv[i].1.len() > 0 by {
            let k = choose|k: int| 0 <= k < f.len() && f[k] == rv[i];
            assert(f[k].1.no_duplicates() && f[k].1.len() > 0);
        }
        assert forall|i: int, j: int|
            0 <= i < rv.len() && 0 <= j < rv[i].1.len() implies (#[trigger] rv[i].1[j]).len() >= 1
                && rv[i].1[j][0] == rn by {
            let k = choose|k: int| 0 <= k < f.len() && f[k] == rv[i];
            assert(f[k].1[j] == rv[i].1[j]);
        }
        assert forall|i: int, j: int| 0 <= i < rv.len() && 0 <= j < rv[i].1.len() implies public_at(
            *krate,
            rv[i].0,
            #[trigger] rv[i].1[j],
        ) by {
            let k = choose|k: int| 0 <= k < f.len() && f[k] == rv[i];
            assert(f[k].1[j] == rv[i].1[j]);
        }
        assert forall|id: Id, p: Seq<Seq<char>>| #[trigger] public_at(*krate, id, p) implies exists|j: int|
            0 <= j < r@.len() && #[trigger] r@[j].0 == id by {
            let i = choose|i: int| 0 <= i < f.len() && #[trigger] f[i].0 == id;
            assert(rv.contains(f[i]));
            let j = choose|j: int| 0 <= j < rv.len() && rv[j] == f[i];
            assert(r@[j].0 == rv[j].0);
        }
    }
    r
}

} // verus!
