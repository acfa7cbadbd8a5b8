//! Resolve cross-crate reexports.
//!
//! When a primary crate reexports an item from a reference crate, the `pub use`
//! target id is recorded only in the primary crate's `paths` (as an external
//! item), not in its `index`: the definition lives in the dependency's own
//! JSON. We bridge this by *inlining*: copying the referenced item's subgraph
//! out of the dependency crate into the primary crate's `index` under fresh ids,
//! and repointing the `use` at the copy. Downstream reachability and rendering
//! then treat it like any other item, so files are produced exactly for what the
//! primary crate reexports.

use vstd::prelude::*;

use crate::model::copy::{
    copy_bound_list, copy_generics, copy_item_fields, copy_opt_path, copy_opt_type_value, copy_plain_inner, copy_strs,
    is_container, same_bounds, same_generics, same_item_fields, same_opt_path, same_opt_type, same_plain_inner,
    same_strs, same_type,
};
use crate::model::rustdoc::{
    index_ids, lookup, Crate, Discriminant, Enum, ExternalCrate, Id, Impl, Item, ItemEnum, ItemSummary, Module, Struct,
    StructKind, Trait, Union, Use, Variant, VariantKind,
};
use crate::model::ReexportOrigin;
use crate::text::{copy_str, str_eq, texts};

verus! {

// ---------------------------------------------------------------------------
// What a copy is

/// Whether the reference crate's index holds `x`.
pub open spec fn src_has(src: Crate, x: Id) -> bool {
    lookup(src.index@, x) is Some
}

/// The new id the memo gives `k` (first entry).
pub open spec fn memo_get(memo: Seq<(Id, Id)>, k: Id) -> Option<Id>
    decreases memo.len(),
{
    if memo.len() == 0 {
        None
    } else if memo[0].0 == k {
        Some(memo[0].1)
    } else {
        memo_get(memo.drop_first(), k)
    }
}

/// The ids of `ids` that the reference crate holds, mapped to their copies.
pub open spec fn mapped_ids(ids: Seq<Id>, src: Crate, memo: Seq<(Id, Id)>) -> Seq<Id>
    decreases ids.len(),
{
    if ids.len() == 0 {
        seq![]
    } else {
        let r = mapped_ids(ids.drop_last(), src, memo);
        if src_has(src, ids.last()) {
            match memo_get(memo, ids.last()) {
                Some(v) => r.push(v),
                None => r,
            }
        } else {
            r
        }
    }
}

/// Every id of `ids` that the reference crate holds has a copy.
pub open spec fn covered(ids: Seq<Id>, src: Crate, memo: Seq<(Id, Id)>) -> bool {
    forall|i: int| 0 <= i < ids.len() && src_has(src, #[trigger] ids[i]) ==> memo_get(memo, ids[i]) is Some
}

/// `new` lists the copies of the ids of `old` that the reference crate holds.
pub open spec fn list_copied(old: Seq<Id>, new: Seq<Id>, src: Crate, memo: Seq<(Id, Id)>) -> bool {
    covered(old, src, memo) && new == mapped_ids(old, src, memo)
}

/// Positional ids mapped to their copies (`None` when not held).
pub open spec fn mapped_opt(ids: Seq<Option<Id>>, src: Crate, memo: Seq<(Id, Id)>) -> Seq<Option<Id>> {
    Seq::new(
        ids.len(),
        |i: int|
            match ids[i] {
                Some(x) => if src_has(src, x) {
                    memo_get(memo, x)
                } else {
                    None
                },
                None => None,
            },
    )
}

/// A positional id, if held, has a copy.
pub open spec fn opt_covered(o: Option<Id>, src: Crate, memo: Seq<(Id, Id)>) -> bool {
    match o {
        Some(x) => src_has(src, x) ==> memo_get(memo, x) is Some,
        None => true,
    }
}

/// Positional version of `list_copied`.
pub open spec fn opt_list_copied(old: Seq<Option<Id>>, new: Seq<Option<Id>>, src: Crate, memo: Seq<(Id, Id)>) -> bool {
    &&& forall|i: int| 0 <= i < old.len() ==> opt_covered(#[trigger] old[i], src, memo)
    &&& new == mapped_opt(old, src, memo)
}

/// A struct's kind copied.
pub open spec fn kind_copied(a: StructKind, b: StructKind, src: Crate, memo: Seq<(Id, Id)>) -> bool {
    match (a, b) {
        (StructKind::Unit, StructKind::Unit) => true,
        (StructKind::Tuple(f1), StructKind::Tuple(f2)) => opt_list_copied(f1@, f2@, src, memo),
        (
            StructKind::Plain { fields: f1, has_stripped_fields: h1 },
            StructKind::Plain { fields: f2, has_stripped_fields: h2 },
        ) => h1 == h2 && list_copied(f1@, f2@, src, memo),
        _ => false,
    }
}

/// A variant's kind copied.
pub open spec fn vkind_copied(a: VariantKind, b: VariantKind, src: Crate, memo: Seq<(Id, Id)>) -> bool {
    match (a, b) {
        (VariantKind::Plain, VariantKind::Plain) => true,
        (VariantKind::Tuple(f1), VariantKind::Tuple(f2)) => opt_list_copied(f1@, f2@, src, memo),
        (
            VariantKind::Struct { fields: f1, has_stripped_fields: h1 },
            VariantKind::Struct { fields: f2, has_stripped_fields: h2 },
        ) => h1 == h2 && list_copied(f1@, f2@, src, memo),
        _ => false,
    }
}

/// Optional discriminants that agree.
pub open spec fn same_disc(a: Option<Discriminant>, b: Option<Discriminant>) -> bool {
    match (a, b) {
        (Some(x), Some(y)) => x.expr@ == y.expr@ && x.value@ == y.value@,
        (None, None) => true,
        _ => false,
    }
}

/// `b` is `a` with every list of contained items replaced by the copies of
/// its held ids; all else the same.
pub open spec fn copied_inner(a: ItemEnum, b: ItemEnum, src: Crate, memo: Seq<(Id, Id)>) -> bool {
    match (a, b) {
        (ItemEnum::Module(x), ItemEnum::Module(y)) => x.is_crate == y.is_crate && x.is_stripped == y.is_stripped
            && list_copied(x.items@, y.items@, src, memo),
        (ItemEnum::Struct(x), ItemEnum::Struct(y)) => kind_copied(x.kind, y.kind, src, memo) && same_generics(
            x.generics,
            y.generics,
        ) && list_copied(x.impls@, y.impls@, src, memo),
        (ItemEnum::Enum(x), ItemEnum::Enum(y)) => same_generics(x.generics, y.generics) && x.has_stripped_variants
            == y.has_stripped_variants && list_copied(x.variants@, y.variants@, src, memo) && list_copied(
            x.impls@,
            y.impls@,
            src,
            memo,
        ),
        (ItemEnum::Union(x), ItemEnum::Union(y)) => same_generics(x.generics, y.generics) && x.has_stripped_fields
            == y.has_stripped_fields && list_copied(x.fields@, y.fields@, src, memo) && list_copied(
            x.impls@,
            y.impls@,
            src,
            memo,
        ),
        (ItemEnum::Variant(x), ItemEnum::Variant(y)) => vkind_copied(x.kind, y.kind, src, memo) && same_disc(
            x.discriminant,
            y.discriminant,
        ),
        (ItemEnum::Trait(x), ItemEnum::Trait(y)) => x.is_auto == y.is_auto && x.is_unsafe == y.is_unsafe
            && x.is_dyn_compatible == y.is_dyn_compatible && list_copied(x.items@, y.items@, src, memo)
            && same_generics(x.generics, y.generics) && same_bounds(x.bounds@, y.bounds@) && list_copied(
            x.implementations@,
            y.implementations@,
            src,
            memo,
        ),
        (ItemEnum::Impl(x), ItemEnum::Impl(y)) => x.is_unsafe == y.is_unsafe && same_generics(x.generics, y.generics)
            && same_strs(x.provided_trait_methods@, y.provided_trait_methods@) && same_opt_path(x.trait_, y.trait_)
            && same_type(x.for_, y.for_) && list_copied(x.items@, y.items@, src, memo) && x.is_negative
            == y.is_negative && x.is_synthetic == y.is_synthetic && same_opt_type(x.blanket_impl, y.blanket_impl),
        _ => !is_container(a) && same_plain_inner(a, b),
    }
}

/// `b` is the copy of `a` under id `id`.
pub open spec fn copied_item(a: Item, b: Item, id: Id, src: Crate, memo: Seq<(Id, Id)>) -> bool {
    b.id == id && same_item_fields(a, b) && copied_inner(a.inner, b.inner, src, memo)
}

/// The dependency-side path of `x`, from the first `paths` entry for it.
pub open spec fn path_of(ps: Seq<(Id, ItemSummary)>, x: Id) -> Option<Seq<Seq<char>>>
    decreases ps.len(),
{
    if ps.len() == 0 {
        None
    } else if ps[0].0 == x {
        Some(texts(ps[0].1.path@))
    } else {
        path_of(ps.drop_first(), x)
    }
}

/// The origins recorded for memo entries `es`: the new id and the source's
/// path, for each source that has a path.
pub open spec fn origins_for(es: Seq<(Id, Id)>, src: Crate) -> Seq<(Id, Seq<Seq<char>>)>
    decreases es.len(),
{
    if es.len() == 0 {
        seq![]
    } else {
        let r = origins_for(es.drop_last(), src);
        match path_of(src.paths@, es.last().0) {
            Some(p) => r.push((es.last().1, p)),
            None => r,
        }
    }
}

/// The view of recorded origins.
pub open spec fn origins_view(os: Seq<(Id, ReexportOrigin)>) -> Seq<(Id, Seq<Seq<char>>)> {
    os.map_values(|o: (Id, ReexportOrigin)| (o.0, texts(o.1.path@)))
}

// ---------------------------------------------------------------------------
// Lemmas about copies

proof fn lemma_memo_push(memo: Seq<(Id, Id)>, e: (Id, Id), k: Id)
    ensures
        memo_get(memo.push(e), k) == match memo_get(memo, k) {
            Some(v) => Some(v),
            None => if e.0 == k {
                Some(e.1)
            } else {
                None
            },
        },
    decreases memo.len(),
{
    if memo.len() > 0 {
        assert(memo.push(e).drop_first() =~= memo.drop_first().push(e));
        assert(memo.push(e)[0] == memo[0]);
        lemma_memo_push(memo.drop_first(), e, k);
    } else {
        assert(memo.push(e).drop_first() =~= memo);
        assert(memo.push(e)[0] == e);
    }
}

/// A memo's answers survive its growth.
proof fn lemma_memo_prefix(m1: Seq<(Id, Id)>, m2: Seq<(Id, Id)>, k: Id)
    requires
        m1.len() <= m2.len(),
        m2.take(m1.len() as int) == m1,
        memo_get(m1, k) is Some,
    ensures
        memo_get(m2, k) == memo_get(m1, k),
    decreases m2.len() - m1.len(),
{
    if m2.len() > m1.len() {
        let p = m2.drop_last();
        assert(p.take(m1.len() as int) =~= m1);
        lemma_memo_prefix(m1, p, k);
        assert(m2 =~= p.push(m2.last()));
        lemma_memo_push(p, m2.last(), k);
    } else {
        assert(m2 =~= m1);
    }
}

proof fn lemma_mapped_mono(ids: Seq<Id>, src: Crate, m1: Seq<(Id, Id)>, m2: Seq<(Id, Id)>)
    requires
        m1.len() <= m2.len(),
        m2.take(m1.len() as int) == m1,
        covered(ids, src, m1),
    ensures
        covered(ids, src, m2),
        mapped_ids(ids, src, m2) == mapped_ids(ids, src, m1),
    decreases ids.len(),
{
    assert forall|i: int| 0 <= i < ids.len() && src_has(src, #[trigger] ids[i]) implies memo_get(m2, ids[i]) is Some by {
        lemma_memo_prefix(m1, m2, ids[i]);
    }
    if ids.len() > 0 {
        let p = ids.drop_last();
        assert forall|i: int| 0 <= i < p.len() && src_has(src, #[trigger] p[i]) implies memo_get(m1, p[i]) is Some by {
            assert(p[i] == ids[i]);
        }
        lemma_mapped_mono(p, src, m1, m2);
        if src_has(src, ids.last()) {
            lemma_memo_prefix(m1, m2, ids.last());
        }
    }
}

proof fn lemma_list_mono(old: Seq<Id>, new: Seq<Id>, src: Crate, m1: Seq<(Id, Id)>, m2: Seq<(Id, Id)>)
    requires
        m1.len() <= m2.len(),
        m2.take(m1.len() as int) == m1,
        list_copied(old, new, src, m1),
    ensures
        list_copied(old, new, src, m2),
{
    lemma_mapped_mono(old, src, m1, m2);
}

proof fn lemma_opt_list_mono(old: Seq<Option<Id>>, new: Seq<Option<Id>>, src: Crate, m1: Seq<(Id, Id)>, m2: Seq<(Id, Id)>)
    requires
        m1.len() <= m2.len(),
        m2.take(m1.len() as int) == m1,
        opt_list_copied(old, new, src, m1),
    ensures
        opt_list_copied(old, new, src, m2),
{
    assert forall|i: int| 0 <= i < old.len() implies opt_covered(#[trigger] old[i], src, m2) by {
        if let Some(x) = old[i] {
            if src_has(src, x) {
                lemma_memo_prefix(m1, m2, x);
            }
        }
    }
    assert forall|i: int| 0 <= i < old.len() implies mapped_opt(old, src, m2)[i] == mapped_opt(old, src, m1)[i] by {
        if let Some(x) = old[i] {
            if src_has(src, x) {
                lemma_memo_prefix(m1, m2, x);
            }
        }
    }
    assert(mapped_opt(old, src, m2) =~= mapped_opt(old, src, m1));
}

/// A copy stays a copy as the memo grows.
proof fn lemma_copied_mono(a: ItemEnum, b: ItemEnum, src: Crate, m1: Seq<(Id, Id)>, m2: Seq<(Id, Id)>)
    requires
        m1.len() <= m2.len(),
        m2.take(m1.len() as int) == m1,
        copied_inner(a, b, src, m1),
    ensures
        copied_inner(a, b, src, m2),
{
    match (a, b) {
        (ItemEnum::Module(x), ItemEnum::Module(y)) => {
            lemma_list_mono(x.items@, y.items@, src, m1, m2);
        },
        (ItemEnum::Struct(x), ItemEnum::Struct(y)) => {
            match (x.kind, y.kind) {
                (StructKind::Tuple(f1), StructKind::Tuple(f2)) => lemma_opt_list_mono(f1@, f2@, src, m1, m2),
                (StructKind::Plain { fields: f1, .. }, StructKind::Plain { fields: f2, .. }) => lemma_list_mono(
                    f1@,
                    f2@,
                    src,
                    m1,
                    m2,
                ),
                _ => {},
            }
            lemma_list_mono(x.impls@, y.impls@, src, m1, m2);
        },
        (ItemEnum::Enum(x), ItemEnum::Enum(y)) => {
            lemma_list_mono(x.variants@, y.variants@, src, m1, m2);
            lemma_list_mono(x.impls@, y.impls@, src, m1, m2);
        },
        (ItemEnum::Union(x), ItemEnum::Union(y)) => {
            lemma_list_mono(x.fields@, y.fields@, src, m1, m2);
            lemma_list_mono(x.impls@, y.impls@, src, m1, m2);
        },
        (ItemEnum::Variant(x), ItemEnum::Variant(y)) => {
            match (x.kind, y.kind) {
                (VariantKind::Tuple(f1), VariantKind::Tuple(f2)) => lemma_opt_list_mono(f1@, f2@, src, m1, m2),
                (VariantKind::Struct { fields: f1, .. }, VariantKind::Struct { fields: f2, .. }) => lemma_list_mono(
                    f1@,
                    f2@,
                    src,
                    m1,
                    m2,
                ),
                _ => {},
            }
        },
        (ItemEnum::Trait(x), ItemEnum::Trait(y)) => {
            lemma_list_mono(x.items@, y.items@, src, m1, m2);
            lemma_list_mono(x.implementations@, y.implementations@, src, m1, m2);
        },
        (ItemEnum::Impl(x), ItemEnum::Impl(y)) => {
            lemma_list_mono(x.items@, y.items@, src, m1, m2);
        },
        _ => {},
    }
}


/// Origins of concatenated memo entries.
proof fn lemma_origins_concat(x: Seq<(Id, Id)>, y: Seq<(Id, Id)>, src: Crate)
    ensures
        origins_for(x + y, src) == origins_for(x, src) + origins_for(y, src),
    decreases y.len(),
{
    if y.len() == 0 {
        assert(x + y =~= x);
        assert(origins_for(x, src) + origins_for(y, src) =~= origins_for(x, src));
    } else {
        assert((x + y).drop_last() =~= x + y.drop_last());
        assert((x + y).last() == y.last());
        lemma_origins_concat(x, y.drop_last(), src);
        match path_of(src.paths@, y.last().0) {
            Some(p) => {
                assert(origins_for(x, src) + origins_for(y, src) =~= (origins_for(x, src) + origins_for(
                    y.drop_last(),
                    src,
                )).push((y.last().1, p)));
            },
            None => {},
        }
    }
}

/// Distinct held ids are no more than the index's entries.
proof fn lemma_keys_bound(keys: Seq<Id>, src: Crate)
    requires
        keys.no_duplicates(),
        forall|i: int| 0 <= i < keys.len() ==> src_has(src, #[trigger] keys[i]),
    ensures
        keys.len() <= src.index@.len(),
{
    let ids = index_ids(src.index@);
    assert forall|x: Id| keys.to_set().contains(x) implies ids.to_set().contains(x) by {
        let i = choose|i: int| 0 <= i < keys.len() && keys[i] == x;
        crate::model::rustdoc::lemma_lookup_found(src.index@, x);
    }
    keys.unique_seq_to_set();
    ids.lemma_cardinality_of_set();
    vstd::set_lib::lemma_len_subset(keys.to_set(), ids.to_set());
}

// ---------------------------------------------------------------------------
// What a copy takes

/// The items of the reference crate reached from `s` in at most `n` steps
/// from an item to an item it contains.
pub open spec fn reach(src: Crate, s: Id, n: nat) -> Set<Id>
    decreases n,
{
    if n == 0 {
        if src_has(src, s) {
            Set::empty().insert(s)
        } else {
            Set::empty()
        }
    } else {
        let r = reach(src, s, (n - 1) as nat);
        r.union(Set::new(|c: Id| src_has(src, c) && exists|p: Id| #[trigger] r.contains(p) && child_of(src, p, c)))
    }
}

/// What copying `s` takes: `s` and everything it contains, transitively
/// (no chain of containment is longer than the crate).
pub open spec fn closure(src: Crate, s: Id) -> Set<Id> {
    reach(src, s, src.index@.len())
}

proof fn lemma_reach_held(src: Crate, s: Id, n: nat)
    ensures
        forall|x: Id| #[trigger] reach(src, s, n).contains(x) ==> src_has(src, x),
        reach(src, s, n).subset_of(index_ids(src.index@).to_set()),
        reach(src, s, n).finite(),
        reach(src, s, n).len() <= src.index@.len(),
    decreases n,
{
    if n > 0 {
        lemma_reach_held(src, s, (n - 1) as nat);
    }
    let ids = index_ids(src.index@);
    assert forall|x: Id| #[trigger] reach(src, s, n).contains(x) implies ids.to_set().contains(x) by {
        crate::model::rustdoc::lemma_lookup_found(src.index@, x);
        let i = choose|i: int| 0 <= i < src.index@.len() && src.index@[i] == lookup(src.index@, x)->0 && #[trigger] ids[i] == x;
        assert(ids.contains(x));
    }
    ids.lemma_cardinality_of_set();
    vstd::set_lib::lemma_set_subset_finite(ids.to_set(), reach(src, s, n));
    vstd::set_lib::lemma_len_subset(reach(src, s, n), ids.to_set());
}

proof fn lemma_reach_mono(src: Crate, s: Id, n: nat, m: nat)
    requires
        n <= m,
    ensures
        reach(src, s, n).subset_of(reach(src, s, m)),
    decreases m,
{
    if n < m {
        lemma_reach_mono(src, s, n, (m - 1) as nat);
    }
}

/// Memo entry `i` is reached from the first entry within `i` steps.
proof fn lemma_memo_reach(memo: Seq<(Id, Id)>, src: Crate, i: int)
    requires
        0 <= i < memo.len(),
        forall|j: int| 0 <= j < memo.len() ==> src_has(src, #[trigger] memo[j].0),
        forall|j: int| 0 < j < memo.len() ==> #[trigger] has_parent(memo, src, j),
    ensures
        reach(src, memo[0].0, i as nat).contains(memo[i].0),
    decreases i,
{
    if i > 0 {
        assert(has_parent(memo, src, i));
        let j = choose|j: int| 0 <= j < i && #[trigger] child_of(src, memo[j].0, memo[i].0);
        lemma_memo_reach(memo, src, j);
        lemma_reach_mono(src, memo[0].0, j as nat, (i - 1) as nat);
        let r = reach(src, memo[0].0, (i - 1) as nat);
        assert(r.contains(memo[j].0));
        assert(src_has(src, memo[i].0));
    }
}

/// A copier with room for `base` plus the closure of `sid` has room for one
/// more id when it takes a new item `x` it has reached.
proof fn lemma_copy_room(st: Copier, src: Crate, base: int, sid: Id, x: Id)
    requires
        copier_wf(st, src, base),
        st.memo@.len() == 0 ==> x == sid,
        st.memo@.len() > 0 ==> st.memo@[0].0 == sid,
        reached(st.memo@, src, x),
        src_has(src, x),
        memo_get(st.memo@, x) is None,
    ensures
        st.memo@.len() + 1 <= closure(src, sid).len(),
{
    let keys = memo_keys(st.memo@).push(x);
    lemma_memo_get_spec(st.memo@, x);
    assert forall|i: int, j: int| 0 <= i < keys.len() && 0 <= j < keys.len() && i != j implies keys[i] != keys[j] by {
        if i < st.memo@.len() && j < st.memo@.len() {
            if i < j {
                assert(st.memo@[i].0 != st.memo@[j].0);
            } else {
                assert(st.memo@[j].0 != st.memo@[i].0);
            }
        } else if i < st.memo@.len() {
            assert(st.memo@[i].0 != x);
        } else if j < st.memo@.len() {
            assert(st.memo@[j].0 != x);
        }
    }
    assert forall|i: int| 0 <= i < keys.len() implies src_has(src, #[trigger] keys[i]) by {
        if i < st.memo@.len() {
            assert(keys[i] == st.memo@[i].0);
        }
    }
    lemma_keys_bound(keys, src);
    let n = src.index@.len();
    lemma_reach_held(src, sid, n);
    assert forall|y: Id| keys.to_set().contains(y) implies closure(src, sid).contains(y) by {
        let i = choose|i: int| 0 <= i < keys.len() && keys[i] == y;
        if i < st.memo@.len() {
            assert(keys[i] == st.memo@[i].0);
            lemma_memo_reach(st.memo@, src, i);
            lemma_reach_mono(src, sid, i as nat, n);
        } else if st.memo@.len() == 0 {
            assert(reach(src, sid, 0).contains(sid));
            lemma_reach_mono(src, sid, 0, n);
        } else {
            let j = choose|j: int| 0 <= j < st.memo@.len() && #[trigger] child_of(src, st.memo@[j].0, x);
            lemma_memo_reach(st.memo@, src, j);
            assert(reach(src, sid, (j + 1) as nat).contains(x)) by {
                assert(reach(src, sid, j as nat).contains(st.memo@[j].0));
                assert(((j + 1) as nat - 1) as nat == j as nat);
            }
            lemma_reach_mono(src, sid, (j + 1) as nat, n);
        }
    }
    keys.unique_seq_to_set();
    vstd::set_lib::lemma_len_subset(keys.to_set(), closure(src, sid));
}

// ---------------------------------------------------------------------------
// Copying

/// The state of one copy: the memo from source ids to new ids, the next free
/// id, the origins recorded, and the items made so far.
pub struct Copier {
    pub memo: Vec<(Id, Id)>,
    pub next_id: u32,
    pub origins: Vec<(Id, ReexportOrigin)>,
    pub added: Vec<Item>,
}

/// Whether a struct kind lists `c` among its fields.
pub open spec fn kind_contains(k: StructKind, c: Id) -> bool {
    match k {
        StructKind::Unit => false,
        StructKind::Tuple(f) => f@.contains(Some(c)),
        StructKind::Plain { fields, .. } => fields@.contains(c),
    }
}

/// Whether a variant kind lists `c` among its fields.
pub open spec fn vkind_contains(k: VariantKind, c: Id) -> bool {
    match k {
        VariantKind::Plain => false,
        VariantKind::Tuple(f) => f@.contains(Some(c)),
        VariantKind::Struct { fields, .. } => fields@.contains(c),
    }
}

/// Whether `c` is in one of the lists of contained items of `inner` (those
/// that inlining follows).
pub open spec fn contains_child(inner: ItemEnum, c: Id) -> bool {
    match inner {
        ItemEnum::Module(m) => m.items@.contains(c),
        ItemEnum::Struct(x) => kind_contains(x.kind, c) || x.impls@.contains(c),
        ItemEnum::Enum(x) => x.variants@.contains(c) || x.impls@.contains(c),
        ItemEnum::Union(x) => x.fields@.contains(c) || x.impls@.contains(c),
        ItemEnum::Variant(x) => vkind_contains(x.kind, c),
        ItemEnum::Trait(x) => x.items@.contains(c) || x.implementations@.contains(c),
        ItemEnum::Impl(x) => x.items@.contains(c),
        _ => false,
    }
}

/// `c` is contained in the item `p` of the reference crate.
pub open spec fn child_of(src: Crate, p: Id, c: Id) -> bool {
    match lookup(src.index@, p) {
        Some(it) => contains_child(it.inner, c),
        None => false,
    }
}

/// Memo entry `i` was reached from an earlier one: its source is contained
/// in the source of an entry before it.
pub open spec fn has_parent(memo: Seq<(Id, Id)>, src: Crate, i: int) -> bool {
    exists|j: int| 0 <= j < i && #[trigger] child_of(src, memo[j].0, memo[i].0)
}

/// `id` may start a copy: nothing has been copied yet, or it is contained in
/// an item already copied.
pub open spec fn reached(memo: Seq<(Id, Id)>, src: Crate, id: Id) -> bool {
    memo.len() == 0 || exists|j: int| 0 <= j < memo.len() && #[trigger] child_of(src, memo[j].0, id)
}

/// A positional id, if any, is contained in the item `p`.
pub open spec fn opt_child(src: Crate, p: Id, o: Option<Id>) -> bool {
    match o {
        Some(x) => child_of(src, p, x),
        None => true,
    }
}

proof fn lemma_list_reached(src: Crate, p: Id, inner: ItemEnum, ids: Seq<Id>)
    requires
        forall|c: Id| #[trigger] contains_child(inner, c) ==> child_of(src, p, c),
        forall|c: Id| #[trigger] ids.contains(c) ==> contains_child(inner, c),
    ensures
        forall|i: int| 0 <= i < ids.len() ==> #[trigger] child_of(src, p, ids[i]),
{
    assert forall|i: int| 0 <= i < ids.len() implies #[trigger] child_of(src, p, ids[i]) by {
        assert(ids.contains(ids[i]));
    }
}

proof fn lemma_opt_list_reached(src: Crate, p: Id, ids: Seq<Option<Id>>)
    requires
        forall|c: Id| ids.contains(Some(c)) ==> child_of(src, p, c),
    ensures
        forall|i: int| 0 <= i < ids.len() ==> #[trigger] opt_child(src, p, ids[i]),
{
    assert forall|i: int| 0 <= i < ids.len() implies #[trigger] opt_child(src, p, ids[i]) by {
        if let Some(c) = ids[i] {
            assert(ids.contains(Some(c)));
        }
    }
}

/// The memo keys.
pub open spec fn memo_keys(memo: Seq<(Id, Id)>) -> Seq<Id> {
    memo.map_values(|e: (Id, Id)| e.0)
}

/// The ids present among positional ids, in order.
pub open spec fn present_ids(s: Seq<Option<Id>>) -> Seq<Id>
    decreases s.len(),
{
    if s.len() == 0 {
        seq![]
    } else {
        let r = present_ids(s.drop_last());
        match s.last() {
            Some(x) => r.push(x),
            None => r,
        }
    }
}

/// The fields of a struct's kind, in the order a copy visits them.
pub open spec fn kind_visits(k: StructKind) -> Seq<Id> {
    match k {
        StructKind::Unit => seq![],
        StructKind::Tuple(f) => present_ids(f@),
        StructKind::Plain { fields, .. } => fields@,
    }
}

/// The fields of a variant's kind, in the order a copy visits them.
pub open spec fn vkind_visits(k: VariantKind) -> Seq<Id> {
    match k {
        VariantKind::Plain => seq![],
        VariantKind::Tuple(f) => present_ids(f@),
        VariantKind::Struct { fields, .. } => fields@,
    }
}

/// The items that an item kind contains, in the order a copy visits them.
pub open spec fn visits(inner: ItemEnum) -> Seq<Id> {
    match inner {
        ItemEnum::Module(m) => m.items@,
        ItemEnum::Struct(s) => kind_visits(s.kind) + s.impls@,
        ItemEnum::Enum(e) => e.variants@ + e.impls@,
        ItemEnum::Union(u) => u.fields@ + u.impls@,
        ItemEnum::Variant(v) => vkind_visits(v.kind),
        ItemEnum::Trait(t) => t.items@ + t.implementations@,
        ItemEnum::Impl(im) => im.items@,
        _ => seq![],
    }
}

/// The ids `seen` followed by those first met in a depth-first walk of the
/// reference crate from `x`, in preorder: an item before what it contains,
/// contained items in the order `visits` lists them, each held item once.
/// `fuel` bounds the depth of the walk.
pub open spec fn dfs_from(src: Crate, fuel: nat, seen: Seq<Id>, x: Id) -> Seq<Id>
    decreases fuel, 0nat,
{
    if seen.contains(x) {
        seen
    } else {
        match lookup(src.index@, x) {
            None => seen,
            Some(it) => if fuel == 0 {
                seen
            } else {
                dfs_list(src, (fuel - 1) as nat, seen.push(x), visits(it.inner))
            },
        }
    }
}

/// The depth-first walk from each of `xs` in turn.
pub open spec fn dfs_list(src: Crate, fuel: nat, seen: Seq<Id>, xs: Seq<Id>) -> Seq<Id>
    decreases fuel, (xs.len() + 1) as nat,
{
    if xs.len() == 0 {
        seen
    } else {
        dfs_list(src, fuel, dfs_from(src, fuel, seen, xs[0]), xs.drop_first())
    }
}

proof fn lemma_dfs_concat(src: Crate, fuel: nat, seen: Seq<Id>, a: Seq<Id>, b: Seq<Id>)
    ensures
        dfs_list(src, fuel, seen, a + b) == dfs_list(src, fuel, dfs_list(src, fuel, seen, a), b),
    decreases a.len(),
{
    if a.len() == 0 {
        assert(a + b =~= b);
    } else {
        assert((a + b).drop_first() =~= a.drop_first() + b);
        assert((a + b)[0] == a[0]);
        lemma_dfs_concat(src, fuel, dfs_from(src, fuel, seen, a[0]), a.drop_first(), b);
    }
}

proof fn lemma_dfs_one(src: Crate, fuel: nat, seen: Seq<Id>, x: Id)
    ensures
        dfs_list(src, fuel, seen, seq![x]) == dfs_from(src, fuel, seen, x),
{
    assert(seq![x].drop_first() =~= Seq::<Id>::empty());
    assert(dfs_list(src, fuel, dfs_from(src, fuel, seen, x), Seq::<Id>::empty()) == dfs_from(src, fuel, seen, x));
}

proof fn lemma_dfs_append(src: Crate, fuel: nat, seen: Seq<Id>, a: Seq<Id>, x: Id)
    ensures
        dfs_list(src, fuel, seen, a.push(x)) == dfs_from(src, fuel, dfs_list(src, fuel, seen, a), x),
{
    assert(a.push(x) =~= a + seq![x]);
    lemma_dfs_concat(src, fuel, seen, a, seq![x]);
    lemma_dfs_one(src, fuel, dfs_list(src, fuel, seen, a), x);
}

proof fn lemma_dfs_empty(src: Crate, fuel: nat, seen: Seq<Id>)
    ensures
        dfs_list(src, fuel, seen, Seq::<Id>::empty()) == seen,
{
}

/// Added item `j` is the copy of the source of its memo entry.
pub open spec fn added_ok(st: Copier, src: Crate, base: int, j: int) -> bool {
    let k = st.added@[j].id.0 - base;
    &&& 0 <= k < st.memo@.len()
    &&& match lookup(src.index@, st.memo@[k].0) {
        Some(a) => copied_item(a, st.added@[j], st.memo@[k].1, src, st.memo@),
        None => false,
    }
}

/// The copier's invariant: memo keys are held by the reference crate and
/// distinct, each after the first is contained in an earlier one, new ids
/// are handed out in order from `base`, and every item made is the copy of
/// its source.
pub open spec fn copier_wf(st: Copier, src: Crate, base: int) -> bool {
    &&& st.memo@.len() <= src.index@.len()
    &&& forall|i: int| 0 < i < st.memo@.len() ==> #[trigger] has_parent(st.memo@, src, i)
    &&& forall|i: int| 0 <= i < st.memo@.len() ==> src_has(src, #[trigger] st.memo@[i].0)
    &&& forall|i: int, j: int| 0 <= i < j < st.memo@.len() ==> st.memo@[i].0 != st.memo@[j].0
    &&& forall|i: int| 0 <= i < st.memo@.len() ==> (#[trigger] st.memo@[i]).1.0 == base + i
    &&& st.next_id == base + st.memo@.len()
    &&& forall|j: int| 0 <= j < st.added@.len() ==> #[trigger] added_ok(st, src, base, j)
    &&& forall|j1: int, j2: int| 0 <= j1 < j2 < st.added@.len() ==> st.added@[j1].id != st.added@[j2].id
}

/// One step of copying: the memo, the items and the origins only grow; each
/// new memo entry comes with one new item, whose id is newer than the old
/// memo; the new origins are those of the new memo entries.
pub open spec fn copy_step(a: Copier, b: Copier, src: Crate, base: int) -> bool {
    &&& copier_wf(b, src, base)
    &&& a.memo@.len() <= b.memo@.len()
    &&& b.memo@.take(a.memo@.len() as int) == a.memo@
    &&& a.added@.len() <= b.added@.len()
    &&& b.added@.take(a.added@.len() as int) == a.added@
    &&& b.memo@.len() - a.memo@.len() == b.added@.len() - a.added@.len()
    &&& forall|j: int| a.added@.len() <= j < b.added@.len() ==> (#[trigger] b.added@[j]).id.0 - base >= a.memo@.len()
    &&& origins_view(b.origins@) == origins_view(a.origins@) + origins_for(b.memo@.skip(a.memo@.len() as int), src)
}

proof fn lemma_step_refl(a: Copier, src: Crate, base: int)
    requires
        copier_wf(a, src, base),
    ensures
        copy_step(a, a, src, base),
{
    assert(a.memo@.take(a.memo@.len() as int) =~= a.memo@);
    assert(a.added@.take(a.added@.len() as int) =~= a.added@);
    assert(a.memo@.skip(a.memo@.len() as int) =~= Seq::<(Id, Id)>::empty());
    assert(origins_view(a.origins@) + origins_for(Seq::<(Id, Id)>::empty(), src) =~= origins_view(a.origins@));
}

proof fn lemma_step_keeps(a: Copier, b: Copier, src: Crate, base: int, p: int)
    requires
        copy_step(a, b, src, base),
        0 <= p < a.memo@.len(),
    ensures
        b.memo@[p] == a.memo@[p],
{
    assert(b.memo@.take(a.memo@.len() as int)[p] == b.memo@[p]);
}

proof fn lemma_step_trans(a: Copier, b: Copier, c: Copier, src: Crate, base: int)
    requires
        copy_step(a, b, src, base),
        copy_step(b, c, src, base),
    ensures
        copy_step(a, c, src, base),
{
    assert(c.memo@.take(a.memo@.len() as int) =~= b.memo@.take(a.memo@.len() as int));
    assert(c.added@.take(a.added@.len() as int) =~= b.added@.take(a.added@.len() as int));
    assert forall|j: int| a.added@.len() <= j < c.added@.len() implies (#[trigger] c.added@[j]).id.0 - base >= a.memo@.len() by {
        if j < b.added@.len() {
            assert(c.added@[j] == b.added@[j]);
        }
    }
    let x = b.memo@.skip(a.memo@.len() as int);
    let y = c.memo@.skip(b.memo@.len() as int);
    assert(c.memo@.skip(a.memo@.len() as int) =~= x + y);
    lemma_origins_concat(x, y, src);
    assert(origins_view(c.origins@) =~= origins_view(a.origins@) + origins_for(x + y, src));
    assert(c.memo@.take(a.memo@.len() as int) == a.memo@);
    assert(c.added@.take(a.added@.len() as int) == a.added@);
}

/// The new id the memo gives `k`.
fn memo_lookup(memo: &Vec<(Id, Id)>, k: Id) -> (r: Option<Id>)
    ensures
        r == memo_get(memo@, k),
{
    let mut i: usize = 0;
    assert(memo@.skip(0) =~= memo@);
    while i < memo.len()
        invariant
            i <= memo@.len(),
            memo_get(memo@, k) == memo_get(memo@.skip(i as int), k),
        decreases memo@.len() - i,
    {
        assert(memo@.skip(i as int)[0] == memo@[i as int]);
        if memo[i].0 == k {
            return Some(memo[i].1);
        }
        assert(memo@.skip(i as int).drop_first() =~= memo@.skip(i + 1));
        i += 1;
    }
    None
}

/// The first `paths` entry for `x`.
fn summary_lookup(ps: &Vec<(Id, ItemSummary)>, x: Id) -> (r: Option<&ItemSummary>)
    ensures
        match r {
            Some(s) => path_of(ps@, x) == Some(texts(s.path@)),
            None => path_of(ps@, x) is None,
        },
{
    let mut i: usize = 0;
    assert(ps@.skip(0) =~= ps@);
    while i < ps.len()
        invariant
            i <= ps@.len(),
            path_of(ps@, x) == path_of(ps@.skip(i as int), x),
        decreases ps@.len() - i,
    {
        assert(ps@.skip(i as int)[0] == ps@[i as int]);
        if ps[i].0 == x {
            return Some(&ps[i].1);
        }
        assert(ps@.skip(i as int).drop_first() =~= ps@.skip(i + 1));
        i += 1;
    }
    None
}


proof fn lemma_memo_get_spec(m: Seq<(Id, Id)>, k: Id)
    ensures
        (memo_get(m, k) is None) == (forall|i: int| 0 <= i < m.len() ==> m[i].0 != k),
        memo_get(m, k) matches Some(v) ==> exists|i: int| 0 <= i < m.len() && m[i] == (k, v),
    decreases m.len(),
{
    if m.len() > 0 {
        lemma_memo_get_spec(m.drop_first(), k);
        if m[0].0 != k {
            if memo_get(m, k) is None {
                assert forall|i: int| 0 <= i < m.len() implies m[i].0 != k by {
                    if i > 0 {
                        assert(m[i] == m.drop_first()[i - 1]);
                    }
                }
            } else {
                let v = memo_get(m, k).unwrap();
                let i = choose|i: int| 0 <= i < m.drop_first().len() && m.drop_first()[i] == (k, v);
                assert(m[i + 1] == (k, v));
            }
            if forall|i: int| 0 <= i < m.len() ==> m[i].0 != k {
                assert forall|i: int| 0 <= i < m.drop_first().len() implies m.drop_first()[i].0 != k by {
                    assert(m.drop_first()[i] == m[i + 1]);
                }
            }
        } else {
            assert(m[0] == (k, m[0].1));
        }
    }
}

/// A struct's kind copied stays copied as the memo grows.
proof fn lemma_kind_mono(a: StructKind, b: StructKind, src: Crate, m1: Seq<(Id, Id)>, m2: Seq<(Id, Id)>)
    requires
        m1.len() <= m2.len(),
        m2.take(m1.len() as int) == m1,
        kind_copied(a, b, src, m1),
    ensures
        kind_copied(a, b, src, m2),
{
    match (a, b) {
        (StructKind::Tuple(f1), StructKind::Tuple(f2)) => lemma_opt_list_mono(f1@, f2@, src, m1, m2),
        (StructKind::Plain { fields: f1, .. }, StructKind::Plain { fields: f2, .. }) => lemma_list_mono(f1@, f2@, src, m1, m2),
        _ => {},
    }
}

/// Copy the item `src_id` of the reference crate, with everything it
/// contains, unless the memo already has a copy. Returns the copy's id, or
/// `None` when the reference crate does not hold `src_id`. Containment
/// references (module items, fields, variants, impls, …) are followed and
/// remapped; type and path references are left as they are. Items that are
/// addressable in the reference crate get an origin recorded.
fn copy_item(
    src: &Crate,
    src_id: Id,
    st: &mut Copier,
    Ghost(base): Ghost<int>,
    Ghost(sid): Ghost<Id>,
    Ghost(fuel): Ghost<nat>,
) -> (r: Option<Id>)
    requires
        fuel >= src.index@.len() - old(st).memo@.len(),
        copier_wf(*old(st), *src, base),
        reached(old(st).memo@, *src, src_id),
        old(st).memo@.len() == 0 ==> src_id == sid,
        0 <= base,
        base + closure(*src, sid).len() <= u32::MAX,
        old(st).memo@.len() > 0 ==> old(st).memo@[0].0 == sid,
    ensures
        copy_step(*old(st), *final(st), *src, base),
        src_has(*src, src_id) ==> memo_get(final(st).memo@, src_id) is Some,
        r == if src_has(*src, src_id) {
            memo_get(final(st).memo@, src_id)
        } else {
            None
        },
        !src_has(*src, src_id) ==> *final(st) == *old(st),
        memo_get(old(st).memo@, src_id) is None && src_has(*src, src_id) ==> final(st).memo@[old(
            st,
        ).memo@.len() as int].0 == src_id && r == Some(final(st).memo@[old(st).memo@.len() as int].1),
        memo_keys(final(st).memo@) == dfs_from(*src, fuel, memo_keys(old(st).memo@), src_id),
    decreases src.index@.len() - old(st).memo@.len(), 0nat,
{
    let ghost st0 = *st;
    proof {
        lemma_memo_get_spec(st0.memo@, src_id);
    }
    if let Some(existing) = memo_lookup(&st.memo, src_id) {
        proof {
            lemma_step_refl(st0, *src, base);
            let i = choose|i: int| 0 <= i < st0.memo@.len() && st0.memo@[i] == (src_id, existing);
            assert(src_has(*src, st0.memo@[i].0));
            assert(memo_keys(st0.memo@)[i] == src_id);
        }
        return Some(existing);
    }
    let item = match src.get(src_id) {
        Some(it) => it,
        None => {
            proof {
                lemma_step_refl(st0, *src, base);
            }
            return None;
        },
    };
    proof {
        let keys = memo_keys(st0.memo@).push(src_id);
        assert forall|i: int, j: int| 0 <= i < keys.len() && 0 <= j < keys.len() && i != j implies keys[i] != keys[j] by {
            if i < st0.memo@.len() && j < st0.memo@.len() {
                if i < j {
                    assert(st0.memo@[i].0 != st0.memo@[j].0);
                } else {
                    assert(st0.memo@[j].0 != st0.memo@[i].0);
                }
            } else if i < st0.memo@.len() {
                assert(st0.memo@[i].0 != src_id);
            } else if j < st0.memo@.len() {
                assert(st0.memo@[j].0 != src_id);
            }
        }
        assert forall|i: int| 0 <= i < keys.len() implies src_has(*src, #[trigger] keys[i]) by {
            if i < st0.memo@.len() {
                assert(keys[i] == st0.memo@[i].0);
            }
        }
        lemma_keys_bound(keys, *src);
        lemma_copy_room(st0, *src, base, sid, src_id);
        assert(!memo_keys(st0.memo@).contains(src_id)) by {
            if memo_keys(st0.memo@).contains(src_id) {
                let i = choose|i: int| 0 <= i < memo_keys(st0.memo@).len() && memo_keys(st0.memo@)[i] == src_id;
                assert(st0.memo@[i].0 == src_id);
            }
        }
    }
    let new_id = Id(st.next_id);
    st.next_id = st.next_id + 1;
    // Memo first, so that cycles end.
    st.memo.push((src_id, new_id));
    // Record the dependency-side path for addressable items, so the renderer
    // can show where they came from.
    if let Some(summary) = summary_lookup(&src.paths, src_id) {
        st.origins.push((new_id, ReexportOrigin { path: copy_strs(&summary.path) }));
        proof {
            assert(texts(st.origins@.last().1.path@) =~= texts(summary.path@));
        }
    }
    let ghost st1 = *st;
    proof {
        assert(st1.memo@.take(st0.memo@.len() as int) =~= st0.memo@);
        assert forall|j: int| 0 <= j < st1.added@.len() implies #[trigger] added_ok(st1, *src, base, j) by {
            assert(added_ok(st0, *src, base, j));
            let k = st0.added@[j].id.0 - base;
            assert(st1.memo@[k] == st0.memo@[k]);
            let a = lookup(src.index@, st0.memo@[k].0).unwrap();
            lemma_copied_mono(a.inner, st0.added@[j].inner, *src, st0.memo@, st1.memo@);
        }
        assert forall|i: int| 0 <= i < st1.memo@.len() implies (#[trigger] st1.memo@[i]).1.0 == base + i by {
            if i < st0.memo@.len() {
                assert(st1.memo@[i] == st0.memo@[i]);
            }
        }
        assert forall|i: int| 0 < i < st1.memo@.len() implies #[trigger] has_parent(st1.memo@, *src, i) by {
            if i < st0.memo@.len() {
                assert(has_parent(st0.memo@, *src, i));
                let j = choose|j: int| 0 <= j < i && #[trigger] child_of(*src, st0.memo@[j].0, st0.memo@[i].0);
                assert(st1.memo@[j] == st0.memo@[j] && st1.memo@[i] == st0.memo@[i]);
                assert(child_of(*src, st1.memo@[j].0, st1.memo@[i].0));
            } else {
                let j = choose|j: int| 0 <= j < st0.memo@.len() && #[trigger] child_of(*src, st0.memo@[j].0, src_id);
                assert(st1.memo@[j] == st0.memo@[j]);
                assert(child_of(*src, st1.memo@[j].0, st1.memo@[i].0));
            }
        }
        assert(copier_wf(st1, *src, base));
    }
    let inner = remap_inner(
        src,
        &item.inner,
        st,
        Ghost(base),
        Ghost(st0.memo@.len() as int),
        Ghost(sid),
        Ghost((fuel - 1) as nat),
    );
    let ghost st2 = *st;
    proof {
        assert(memo_keys(st1.memo@) =~= memo_keys(st0.memo@).push(src_id));
    }
    let new_item = copy_item_fields(item, new_id, inner);
    st.added.push(new_item);
    let ghost st3 = *st;
    proof {
        let k0 = st0.memo@.len() as int;
        assert(st2.memo@[k0] == st1.memo@[k0]);
        assert(added_ok(st3, *src, base, st3.added@.len() - 1));
        assert forall|j: int| 0 <= j < st3.added@.len() implies #[trigger] added_ok(st3, *src, base, j) by {
            if j < st2.added@.len() {
                assert(added_ok(st2, *src, base, j));
                assert(st3.added@[j] == st2.added@[j]);
            }
        }
        assert forall|j1: int, j2: int| 0 <= j1 < j2 < st3.added@.len() implies st3.added@[j1].id != st3.added@[j2].id by {
            if j2 == st3.added@.len() - 1 {
                if j1 < st0.added@.len() {
                    assert(added_ok(st0, *src, base, j1));
                    assert(st3.added@[j1] == st0.added@[j1]);
                } else {
                    assert(st3.added@[j1] == st2.added@[j1]);
                }
            } else {
                assert(st3.added@[j1] == st2.added@[j1] && st3.added@[j2] == st2.added@[j2]);
            }
        }
        assert(copier_wf(st3, *src, base));
        assert(st3.memo@.take(k0) =~= st0.memo@);
        assert(st3.added@.take(st0.added@.len() as int) =~= st0.added@);
        assert forall|j: int| st0.added@.len() <= j < st3.added@.len() implies (#[trigger] st3.added@[j]).id.0 - base >= st0.memo@.len() by {
            if j < st2.added@.len() {
                assert(st3.added@[j] == st2.added@[j]);
            }
        }
        let e = seq![(src_id, new_id)];
        assert(st1.memo@.skip(k0) =~= e);
        assert(st3.memo@.skip(k0) =~= e + st2.memo@.skip(st1.memo@.len() as int));
        lemma_origins_concat(e, st2.memo@.skip(st1.memo@.len() as int), *src);
        assert(origins_for(e, *src) == origins_for(e.drop_last(), *src) + match path_of(src.paths@, src_id) {
            Some(p) => seq![(new_id, p)],
            None => seq![],
        });
        assert(e.drop_last() =~= Seq::<(Id, Id)>::empty());
        assert(origins_view(st1.origins@) =~= origins_view(st0.origins@) + origins_for(e, *src));
        assert(origins_view(st3.origins@) =~= origins_view(st0.origins@) + origins_for(st3.memo@.skip(k0), *src));
        lemma_memo_push(st0.memo@, (src_id, new_id), src_id);
        lemma_memo_prefix(st1.memo@, st3.memo@, src_id);
    }
    Some(new_id)
}


/// The copies of the held ids of `ids`, in order.
fn copy_ids(
    src: &Crate,
    ids: &Vec<Id>,
    st: &mut Copier,
    Ghost(base): Ghost<int>,
    Ghost(parent): Ghost<int>,
    Ghost(sid): Ghost<Id>,
    Ghost(fuel): Ghost<nat>,
) -> (r: Vec<Id>)
    requires
        fuel >= src.index@.len() - old(st).memo@.len(),
        copier_wf(*old(st), *src, base),
        0 <= parent < old(st).memo@.len(),
        forall|i: int| 0 <= i < ids@.len() ==> #[trigger] child_of(*src, old(st).memo@[parent].0, ids@[i]),
        0 <= base,
        base + closure(*src, sid).len() <= u32::MAX,
        old(st).memo@.len() > 0 ==> old(st).memo@[0].0 == sid,
    ensures
        copy_step(*old(st), *final(st), *src, base),
        list_copied(ids@, r@, *src, final(st).memo@),
        memo_keys(final(st).memo@) == dfs_list(*src, fuel, memo_keys(old(st).memo@), ids@),
    decreases src.index@.len() - old(st).memo@.len(), 1nat,
{
    let ghost st0 = *st;
    proof {
        lemma_step_refl(st0, *src, base);
    }
    let mut out: Vec<Id> = Vec::new();
    let mut i: usize = 0;
    assert(ids@.take(0) =~= Seq::<Id>::empty());
    while i < ids.len()
        invariant
            i <= ids@.len(),
            0 <= base,
            base + closure(*src, sid).len() <= u32::MAX,
            st0.memo@[0].0 == sid,
            st.memo@[0] == st0.memo@[0],
            copy_step(st0, *st, *src, base),
            st0.memo@.len() <= st.memo@.len(),
            st0.memo@.len() == old(st).memo@.len(),
            list_copied(ids@.take(i as int), out@, *src, st.memo@),
            fuel >= src.index@.len() - st0.memo@.len(),
            memo_keys(st.memo@) == dfs_list(*src, fuel, memo_keys(st0.memo@), ids@.take(i as int)),
            0 <= parent < st0.memo@.len(),
            st.memo@[parent] == st0.memo@[parent],
            forall|k: int| 0 <= k < ids@.len() ==> #[trigger] child_of(*src, st0.memo@[parent].0, ids@[k]),
        decreases ids@.len() - i,
    {
        let ghost sa = *st;
        let x = ids[i];
        assert(child_of(*src, sa.memo@[parent].0, ids@[i as int]));
        let c = copy_item(src, x, st, Ghost(base), Ghost(sid), Ghost(fuel));
        let ghost sb = *st;
        proof {
            lemma_step_keeps(sa, sb, *src, base, parent);
            lemma_step_keeps(sa, sb, *src, base, 0);
            lemma_step_trans(st0, sa, sb, *src, base);
            lemma_list_mono(ids@.take(i as int), out@, *src, sa.memo@, sb.memo@);
            assert(ids@.take(i + 1).drop_last() =~= ids@.take(i as int));
            assert(ids@.take(i + 1).last() == x);
            assert(ids@.take(i + 1) =~= ids@.take(i as int).push(x));
            lemma_dfs_append(*src, fuel, memo_keys(st0.memo@), ids@.take(i as int), x);
        }
        let ghost before = out@;
        match c {
            Some(v) => {
                out.push(v);
            },
            None => {},
        }
        proof {
            assert(mapped_ids(ids@.take(i + 1), *src, sb.memo@) =~= out@);
            assert forall|j: int| 0 <= j < i + 1 && src_has(*src, #[trigger] ids@.take(i + 1)[j]) implies memo_get(sb.memo@, ids@.take(i + 1)[j]) is Some by {
                if j < i {
                    assert(ids@.take(i + 1)[j] == ids@.take(i as int)[j]);
                }
            }
        }
        i += 1;
    }
    assert(ids@.take(ids@.len() as int) =~= ids@);
    out
}

/// The copies of positional ids (`None` where not held).
fn copy_opt_ids(
    src: &Crate,
    ids: &Vec<Option<Id>>,
    st: &mut Copier,
    Ghost(base): Ghost<int>,
    Ghost(parent): Ghost<int>,
    Ghost(sid): Ghost<Id>,
    Ghost(fuel): Ghost<nat>,
) -> (r: Vec<Option<Id>>)
    requires
        fuel >= src.index@.len() - old(st).memo@.len(),
        copier_wf(*old(st), *src, base),
        0 <= parent < old(st).memo@.len(),
        forall|i: int| 0 <= i < ids@.len() ==> #[trigger] opt_child(*src, old(st).memo@[parent].0, ids@[i]),
        0 <= base,
        base + closure(*src, sid).len() <= u32::MAX,
        old(st).memo@.len() > 0 ==> old(st).memo@[0].0 == sid,
    ensures
        copy_step(*old(st), *final(st), *src, base),
        opt_list_copied(ids@, r@, *src, final(st).memo@),
        memo_keys(final(st).memo@) == dfs_list(*src, fuel, memo_keys(old(st).memo@), present_ids(ids@)),
    decreases src.index@.len() - old(st).memo@.len(), 1nat,
{
    let ghost st0 = *st;
    proof {
        lemma_step_refl(st0, *src, base);
    }
    let mut out: Vec<Option<Id>> = Vec::new();
    let mut i: usize = 0;
    assert(mapped_opt(ids@.take(0), *src, st.memo@) =~= out@);
    assert(ids@.take(0) =~= Seq::<Option<Id>>::empty());
    while i < ids.len()
        invariant
            i <= ids@.len(),
            0 <= base,
            base + closure(*src, sid).len() <= u32::MAX,
            st0.memo@[0].0 == sid,
            st.memo@[0] == st0.memo@[0],
            copy_step(st0, *st, *src, base),
            st0.memo@.len() <= st.memo@.len(),
            st0.memo@.len() == old(st).memo@.len(),
            opt_list_copied(ids@.take(i as int), out@, *src, st.memo@),
            fuel >= src.index@.len() - st0.memo@.len(),
            memo_keys(st.memo@) == dfs_list(*src, fuel, memo_keys(st0.memo@), present_ids(ids@.take(i as int))),
            0 <= parent < st0.memo@.len(),
            st.memo@[parent] == st0.memo@[parent],
            forall|k: int| 0 <= k < ids@.len() ==> #[trigger] opt_child(*src, st0.memo@[parent].0, ids@[k]),
        decreases ids@.len() - i,
    {
        let ghost sa = *st;
        assert(opt_child(*src, sa.memo@[parent].0, ids@[i as int]));
        let c = match ids[i] {
            Some(x) => copy_item(src, x, st, Ghost(base), Ghost(sid), Ghost(fuel)),
            None => {
                proof {
                    lemma_step_refl(sa, *src, base);
                }
                None
            },
        };
        let ghost sb = *st;
        proof {
            lemma_step_keeps(sa, sb, *src, base, parent);
            lemma_step_keeps(sa, sb, *src, base, 0);
            lemma_step_trans(st0, sa, sb, *src, base);
            lemma_opt_list_mono(ids@.take(i as int), out@, *src, sa.memo@, sb.memo@);
            assert(ids@.take(i + 1).drop_last() =~= ids@.take(i as int));
            assert(ids@.take(i + 1).last() == ids@[i as int]);
            match ids@[i as int] {
                Some(x) => {
                    assert(present_ids(ids@.take(i + 1)) == present_ids(ids@.take(i as int)).push(x));
                    lemma_dfs_append(*src, fuel, memo_keys(st0.memo@), present_ids(ids@.take(i as int)), x);
                },
                None => {
                    assert(present_ids(ids@.take(i + 1)) == present_ids(ids@.take(i as int)));
                },
            }
        }
        let ghost before = out@;
        out.push(c);
        proof {
            assert(mapped_opt(ids@.take(i + 1), *src, sb.memo@) =~= out@) by {
                assert forall|j: int| 0 <= j < i + 1 implies mapped_opt(ids@.take(i + 1), *src, sb.memo@)[j] == out@[j] by {
                    if j < i {
                        assert(ids@.take(i + 1)[j] == ids@.take(i as int)[j]);
                        assert(out@[j] == before[j]);
                        assert(mapped_opt(ids@.take(i as int), *src, sb.memo@)[j] == before[j]);
                    }
                }
            }
            assert forall|j: int| 0 <= j < i + 1 implies opt_covered(#[trigger] ids@.take(i + 1)[j], *src, sb.memo@) by {
                if j < i {
                    assert(ids@.take(i + 1)[j] == ids@.take(i as int)[j]);
                }
            }
        }
        i += 1;
    }
    assert(ids@.take(ids@.len() as int) =~= ids@);
    out
}

/// A struct's kind with its fields copied.
fn remap_struct_kind(
    src: &Crate,
    kind: &StructKind,
    st: &mut Copier,
    Ghost(base): Ghost<int>,
    Ghost(parent): Ghost<int>,
    Ghost(sid): Ghost<Id>,
    Ghost(fuel): Ghost<nat>,
) -> (r: StructKind)
    requires
        fuel >= src.index@.len() - old(st).memo@.len(),
        copier_wf(*old(st), *src, base),
        0 <= parent < old(st).memo@.len(),
        forall|c: Id| #[trigger] kind_contains(*kind, c) ==> child_of(*src, old(st).memo@[parent].0, c),
        0 <= base,
        base + closure(*src, sid).len() <= u32::MAX,
        old(st).memo@.len() > 0 ==> old(st).memo@[0].0 == sid,
    ensures
        copy_step(*old(st), *final(st), *src, base),
        kind_copied(*kind, r, *src, final(st).memo@),
        memo_keys(final(st).memo@) == dfs_list(*src, fuel, memo_keys(old(st).memo@), kind_visits(*kind)),
    decreases src.index@.len() - old(st).memo@.len(), 2nat,
{
    let ghost p = st.memo@[parent].0;
    match kind {
        StructKind::Unit => {
            proof {
                lemma_step_refl(*st, *src, base);
            }
            StructKind::Unit
        },
        StructKind::Tuple(fields) => {
            proof {
                assert forall|c: Id| fields@.contains(Some(c)) implies child_of(*src, p, c) by {
                    assert(kind_contains(*kind, c));
                }
                lemma_opt_list_reached(*src, p, fields@);
            }
            StructKind::Tuple(copy_opt_ids(src, fields, st, Ghost(base), Ghost(parent), Ghost(sid), Ghost(fuel)))
        },
        StructKind::Plain { fields, has_stripped_fields } => {
            proof {
                assert forall|i: int| 0 <= i < fields@.len() implies #[trigger] child_of(*src, p, fields@[i]) by {
                    assert(fields@.contains(fields@[i]));
                    assert(kind_contains(*kind, fields@[i]));
                }
            }
            StructKind::Plain {
                fields: copy_ids(src, fields, st, Ghost(base), Ghost(parent), Ghost(sid), Ghost(fuel)),
                has_stripped_fields: *has_stripped_fields,
            }
        },
    }
}

/// A variant's kind with its fields copied.
fn remap_variant_kind(
    src: &Crate,
    kind: &VariantKind,
    st: &mut Copier,
    Ghost(base): Ghost<int>,
    Ghost(parent): Ghost<int>,
    Ghost(sid): Ghost<Id>,
    Ghost(fuel): Ghost<nat>,
) -> (r: VariantKind)
    requires
        fuel >= src.index@.len() - old(st).memo@.len(),
        copier_wf(*old(st), *src, base),
        0 <= parent < old(st).memo@.len(),
        forall|c: Id| #[trigger] vkind_contains(*kind, c) ==> child_of(*src, old(st).memo@[parent].0, c),
        0 <= base,
        base + closure(*src, sid).len() <= u32::MAX,
        old(st).memo@.len() > 0 ==> old(st).memo@[0].0 == sid,
    ensures
        copy_step(*old(st), *final(st), *src, base),
        vkind_copied(*kind, r, *src, final(st).memo@),
        memo_keys(final(st).memo@) == dfs_list(*src, fuel, memo_keys(old(st).memo@), vkind_visits(*kind)),
    decreases src.index@.len() - old(st).memo@.len(), 2nat,
{
    let ghost p = st.memo@[parent].0;
    match kind {
        VariantKind::Plain => {
            proof {
                lemma_step_refl(*st, *src, base);
            }
            VariantKind::Plain
        },
        VariantKind::Tuple(fields) => {
            proof {
                assert forall|c: Id| fields@.contains(Some(c)) implies child_of(*src, p, c) by {
                    assert(vkind_contains(*kind, c));
                }
                lemma_opt_list_reached(*src, p, fields@);
            }
            VariantKind::Tuple(copy_opt_ids(src, fields, st, Ghost(base), Ghost(parent), Ghost(sid), Ghost(fuel)))
        },
        VariantKind::Struct { fields, has_stripped_fields } => {
            proof {
                assert forall|i: int| 0 <= i < fields@.len() implies #[trigger] child_of(*src, p, fields@[i]) by {
                    assert(fields@.contains(fields@[i]));
                    assert(vkind_contains(*kind, fields@[i]));
                }
            }
            VariantKind::Struct {
                fields: copy_ids(src, fields, st, Ghost(base), Ghost(parent), Ghost(sid), Ghost(fuel)),
                has_stripped_fields: *has_stripped_fields,
            }
        },
    }
}

/// An item kind with its lists of contained items copied.
fn remap_inner(
    src: &Crate,
    inner: &ItemEnum,
    st: &mut Copier,
    Ghost(base): Ghost<int>,
    Ghost(parent): Ghost<int>,
    Ghost(sid): Ghost<Id>,
    Ghost(fuel): Ghost<nat>,
) -> (r: ItemEnum)
    requires
        fuel >= src.index@.len() - old(st).memo@.len(),
        copier_wf(*old(st), *src, base),
        0 <= parent < old(st).memo@.len(),
        forall|c: Id| #[trigger] contains_child(*inner, c) ==> child_of(*src, old(st).memo@[parent].0, c),
        0 <= base,
        base + closure(*src, sid).len() <= u32::MAX,
        old(st).memo@.len() > 0 ==> old(st).memo@[0].0 == sid,
    ensures
        copy_step(*old(st), *final(st), *src, base),
        copied_inner(*inner, r, *src, final(st).memo@),
        memo_keys(final(st).memo@) == dfs_list(*src, fuel, memo_keys(old(st).memo@), visits(*inner)),
    decreases src.index@.len() - old(st).memo@.len(), 3nat,
{
    let ghost st0 = *st;
    let ghost p = st.memo@[parent].0;
    match inner {
        ItemEnum::Module(m) => {
            proof {
                lemma_list_reached(*src, p, *inner, m.items@);
            }
            let items = copy_ids(src, &m.items, st, Ghost(base), Ghost(parent), Ghost(sid), Ghost(fuel));
            ItemEnum::Module(Module { is_crate: m.is_crate, items, is_stripped: m.is_stripped })
        },
        ItemEnum::Struct(s) => {
            proof {
                lemma_list_reached(*src, p, *inner, s.impls@);
                assert forall|c: Id| #[trigger] kind_contains(s.kind, c) implies child_of(*src, p, c) by {
                    assert(contains_child(*inner, c));
                }
            }
            let kind = remap_struct_kind(src, &s.kind, st, Ghost(base), Ghost(parent), Ghost(sid), Ghost(fuel));
            let ghost s1 = *st;
            proof {
                lemma_step_keeps(st0, s1, *src, base, parent);
                lemma_step_keeps(st0, s1, *src, base, 0);
            }
            let impls = copy_ids(src, &s.impls, st, Ghost(base), Ghost(parent), Ghost(sid), Ghost(fuel));
            proof {
                lemma_step_trans(st0, s1, *st, *src, base);
                lemma_kind_mono(s.kind, kind, *src, s1.memo@, st.memo@);
                lemma_dfs_concat(*src, fuel, memo_keys(st0.memo@), kind_visits(s.kind), s.impls@);
            }
            ItemEnum::Struct(Struct { kind, generics: copy_generics(&s.generics), impls })
        },
        ItemEnum::Enum(e) => {
            proof {
                lemma_list_reached(*src, p, *inner, e.variants@);
                lemma_list_reached(*src, p, *inner, e.impls@);
            }
            let variants = copy_ids(src, &e.variants, st, Ghost(base), Ghost(parent), Ghost(sid), Ghost(fuel));
            let ghost s1 = *st;
            proof {
                lemma_step_keeps(st0, s1, *src, base, parent);
                lemma_step_keeps(st0, s1, *src, base, 0);
            }
            let impls = copy_ids(src, &e.impls, st, Ghost(base), Ghost(parent), Ghost(sid), Ghost(fuel));
            proof {
                lemma_step_trans(st0, s1, *st, *src, base);
                lemma_list_mono(e.variants@, variants@, *src, s1.memo@, st.memo@);
                lemma_dfs_concat(*src, fuel, memo_keys(st0.memo@), e.variants@, e.impls@);
            }
            ItemEnum::Enum(
                Enum { generics: copy_generics(&e.generics), has_stripped_variants: e.has_stripped_variants, variants, impls },
            )
        },
        ItemEnum::Union(u) => {
            proof {
                lemma_list_reached(*src, p, *inner, u.fields@);
                lemma_list_reached(*src, p, *inner, u.impls@);
            }
            let fields = copy_ids(src, &u.fields, st, Ghost(base), Ghost(parent), Ghost(sid), Ghost(fuel));
            let ghost s1 = *st;
            proof {
                lemma_step_keeps(st0, s1, *src, base, parent);
                lemma_step_keeps(st0, s1, *src, base, 0);
            }
            let impls = copy_ids(src, &u.impls, st, Ghost(base), Ghost(parent), Ghost(sid), Ghost(fuel));
            proof {
                lemma_step_trans(st0, s1, *st, *src, base);
                lemma_list_mono(u.fields@, fields@, *src, s1.memo@, st.memo@);
                lemma_dfs_concat(*src, fuel, memo_keys(st0.memo@), u.fields@, u.impls@);
            }
            ItemEnum::Union(
                Union { generics: copy_generics(&u.generics), has_stripped_fields: u.has_stripped_fields, fields, impls },
            )
        },
        ItemEnum::Variant(v) => {
            proof {
                assert forall|c: Id| #[trigger] vkind_contains(v.kind, c) implies child_of(*src, p, c) by {
                    assert(contains_child(*inner, c));
                }
            }
            let kind = remap_variant_kind(src, &v.kind, st, Ghost(base), Ghost(parent), Ghost(sid), Ghost(fuel));
            let discriminant = match &v.discriminant {
                Some(d) => Some(Discriminant { expr: copy_str(d.expr.as_str()), value: copy_str(d.value.as_str()) }),
                None => None,
            };
            ItemEnum::Variant(Variant { kind, discriminant })
        },
        ItemEnum::Trait(t) => {
            proof {
                lemma_list_reached(*src, p, *inner, t.items@);
                lemma_list_reached(*src, p, *inner, t.implementations@);
            }
            let items = copy_ids(src, &t.items, st, Ghost(base), Ghost(parent), Ghost(sid), Ghost(fuel));
            let ghost s1 = *st;
            proof {
                lemma_step_keeps(st0, s1, *src, base, parent);
                lemma_step_keeps(st0, s1, *src, base, 0);
            }
            let implementations = copy_ids(src, &t.implementations, st, Ghost(base), Ghost(parent), Ghost(sid), Ghost(fuel));
            proof {
                lemma_step_trans(st0, s1, *st, *src, base);
                lemma_list_mono(t.items@, items@, *src, s1.memo@, st.memo@);
                lemma_dfs_concat(*src, fuel, memo_keys(st0.memo@), t.items@, t.implementations@);
            }
            ItemEnum::Trait(
                Trait {
                    is_auto: t.is_auto,
                    is_unsafe: t.is_unsafe,
                    is_dyn_compatible: t.is_dyn_compatible,
                    items,
                    generics: copy_generics(&t.generics),
                    bounds: copy_bound_list(&t.bounds),
                    implementations,
                },
            )
        },
        ItemEnum::Impl(im) => {
            proof {
                lemma_list_reached(*src, p, *inner, im.items@);
            }
            let items = copy_ids(src, &im.items, st, Ghost(base), Ghost(parent), Ghost(sid), Ghost(fuel));
            ItemEnum::Impl(
                Impl {
                    is_unsafe: im.is_unsafe,
                    generics: copy_generics(&im.generics),
                    provided_trait_methods: copy_strs(&im.provided_trait_methods),
                    trait_: copy_opt_path(&im.trait_),
                    for_: crate::model::copy::copy_type(&im.for_),
                    items,
                    is_negative: im.is_negative,
                    is_synthetic: im.is_synthetic,
                    blanket_impl: copy_opt_type_value(&im.blanket_impl),
                },
            )
        },
        _ => {
            proof {
                lemma_step_refl(st0, *src, base);
                assert(visits(*inner) =~= Seq::<Id>::empty());
                lemma_dfs_empty(*src, fuel, memo_keys(st0.memo@));
            }
            copy_plain_inner(inner)
        },
    }
}


// ---------------------------------------------------------------------------
// Finding what to inline

/// The crate name of a parsed crate (its root module's name).
pub open spec fn crate_name_of(k: Crate) -> Option<Seq<char>> {
    match lookup(k.index@, k.root) {
        Some(it) => match it.name {
            Some(n) => Some(n@),
            None => None,
        },
        None => None,
    }
}

/// The crate name of a parsed crate (its root module's name).
pub fn crate_name(krate: &Crate) -> (r: Option<String>)
    ensures
        match r {
            Some(n) => crate_name_of(*krate) == Some(n@),
            None => crate_name_of(*krate) is None,
        },
{
    match krate.get(krate.root) {
        Some(it) => match &it.name {
            Some(n) => Some(copy_str(n.as_str())),
            None => None,
        },
        None => None,
    }
}

/// A `use` in the primary crate whose target lives in a reference crate.
pub struct CrossCrateUse {
    pub use_item: Id,
    pub crate_name: String,
    pub path: Vec<String>,
}

/// A cross-crate use as values: the use item, the crate's name, the path.
pub type UseTarget = (Id, Seq<char>, Seq<Seq<char>>);

/// The view of a cross-crate use.
pub open spec fn use_view(u: CrossCrateUse) -> UseTarget {
    (u.use_item, u.crate_name@, texts(u.path@))
}

/// The first reference crate with name `name`.
pub open spec fn ref_of(refs: Seq<(String, Crate)>, name: Seq<char>) -> Option<Crate>
    decreases refs.len(),
{
    if refs.len() == 0 {
        None
    } else if refs[0].0@ == name {
        Some(refs[0].1)
    } else {
        ref_of(refs.drop_first(), name)
    }
}

/// The first `paths` entry of `ps` for `id`.
pub open spec fn summary_for(ps: Seq<(Id, ItemSummary)>, id: Id) -> Option<ItemSummary>
    decreases ps.len(),
{
    if ps.len() == 0 {
        None
    } else if ps[0].0 == id {
        Some(ps[0].1)
    } else {
        summary_for(ps.drop_first(), id)
    }
}

/// The first external crate with number `n`.
pub open spec fn extern_for(es: Seq<(u32, ExternalCrate)>, n: u32) -> Option<ExternalCrate>
    decreases es.len(),
{
    if es.len() == 0 {
        None
    } else if es[0].0 == n {
        Some(es[0].1)
    } else {
        extern_for(es.drop_first(), n)
    }
}

/// The cross-crate use that item `it` of `primary` makes, if it is a `use`
/// whose target is not in the primary index but has a path in a crate that is
/// among the references.
pub open spec fn cross_use_of(primary: Crate, refs: Seq<(String, Crate)>, it: Item) -> Option<UseTarget> {
    match it.inner {
        ItemEnum::Use(u) => match u.id {
            Some(t) => if lookup(primary.index@, t) is Some {
                None
            } else {
                match summary_for(primary.paths@, t) {
                    Some(sm) => match extern_for(primary.external_crates@, sm.crate_id) {
                        Some(ext) => if ref_of(refs, ext.name@) is Some {
                            Some((it.id, ext.name@, texts(sm.path@)))
                        } else {
                            None
                        },
                        None => None,
                    },
                    None => None,
                }
            },
            None => None,
        },
        _ => None,
    }
}

/// The cross-crate uses of `items`, in index order.
pub open spec fn cross_uses(primary: Crate, refs: Seq<(String, Crate)>, items: Seq<Item>) -> Seq<UseTarget>
    decreases items.len(),
{
    if items.len() == 0 {
        seq![]
    } else {
        let r = cross_uses(primary, refs, items.drop_last());
        match cross_use_of(primary, refs, items.last()) {
            Some(u) => r.push(u),
            None => r,
        }
    }
}

/// Where a stable insertion by use-item id puts `x` into `r`.
pub open spec fn use_insert_at(r: Seq<UseTarget>, x: UseTarget) -> int
    decreases r.len(),
{
    if r.len() == 0 {
        0
    } else if x.0.0 < r[0].0.0 {
        0
    } else {
        1 + use_insert_at(r.drop_first(), x)
    }
}

/// Uses stably sorted by use-item id.
pub open spec fn sort_uses(s: Seq<UseTarget>) -> Seq<UseTarget>
    decreases s.len(),
{
    if s.len() == 0 {
        s
    } else {
        let r = sort_uses(s.drop_last());
        r.insert(use_insert_at(r, s.last()), s.last())
    }
}

proof fn lemma_use_insert_scan(r: Seq<UseTarget>, x: UseTarget, p: int)
    requires
        0 <= p <= r.len(),
        forall|j: int| 0 <= j < p ==> !(x.0.0 < (#[trigger] r[j]).0.0),
        p == r.len() || x.0.0 < r[p].0.0,
    ensures
        use_insert_at(r, x) == p,
    decreases p,
{
    if p > 0 {
        assert forall|j: int| 0 <= j < p - 1 implies !(x.0.0 < (#[trigger] r.drop_first()[j]).0.0) by {
            assert(r.drop_first()[j] == r[j + 1]);
        }
        lemma_use_insert_scan(r.drop_first(), x, p - 1);
    }
}

/// The first reference crate named `name`.
fn find_ref<'a>(refs: &'a Vec<(String, Crate)>, name: &str) -> (r: Option<&'a Crate>)
    ensures
        match r {
            Some(c) => ref_of(refs@, name@) == Some(*c),
            None => ref_of(refs@, name@) is None,
        },
{
    let mut i: usize = 0;
    assert(refs@.skip(0) =~= refs@);
    while i < refs.len()
        invariant
            i <= refs@.len(),
            ref_of(refs@, name@) == ref_of(refs@.skip(i as int), name@),
        decreases refs@.len() - i,
    {
        assert(refs@.skip(i as int)[0] == refs@[i as int]);
        if str_eq(refs[i].0.as_str(), name) {
            return Some(&refs[i].1);
        }
        assert(refs@.skip(i as int).drop_first() =~= refs@.skip(i + 1));
        i += 1;
    }
    None
}

/// The first `paths` entry for `id`.
fn find_summary<'a>(ps: &'a Vec<(Id, ItemSummary)>, id: Id) -> (r: Option<&'a ItemSummary>)
    ensures
        match r {
            Some(sm) => summary_for(ps@, id) == Some(*sm),
            None => summary_for(ps@, id) is None,
        },
{
    let mut i: usize = 0;
    assert(ps@.skip(0) =~= ps@);
    while i < ps.len()
        invariant
            i <= ps@.len(),
            summary_for(ps@, id) == summary_for(ps@.skip(i as int), id),
        decreases ps@.len() - i,
    {
        assert(ps@.skip(i as int)[0] == ps@[i as int]);
        if ps[i].0 == id {
            return Some(&ps[i].1);
        }
        assert(ps@.skip(i as int).drop_first() =~= ps@.skip(i + 1));
        i += 1;
    }
    None
}

/// The first external crate numbered `n`.
fn find_extern<'a>(es: &'a Vec<(u32, ExternalCrate)>, n: u32) -> (r: Option<&'a ExternalCrate>)
    ensures
        match r {
            Some(e) => extern_for(es@, n) == Some(*e),
            None => extern_for(es@, n) is None,
        },
{
    let mut i: usize = 0;
    assert(es@.skip(0) =~= es@);
    while i < es.len()
        invariant
            i <= es@.len(),
            extern_for(es@, n) == extern_for(es@.skip(i as int), n),
        decreases es@.len() - i,
    {
        assert(es@.skip(i as int)[0] == es@[i as int]);
        if es[i].0 == n {
            return Some(&es[i].1);
        }
        assert(es@.skip(i as int).drop_first() =~= es@.skip(i + 1));
        i += 1;
    }
    None
}

/// The cross-crate use made by one item, if any.
fn cross_use(primary: &Crate, refs: &Vec<(String, Crate)>, item: &Item) -> (r: Option<CrossCrateUse>)
    ensures
        match r {
            Some(u) => cross_use_of(*primary, refs@, *item) == Some(use_view(u)),
            None => cross_use_of(*primary, refs@, *item) is None,
        },
{
    let use_ = match &item.inner {
        ItemEnum::Use(u) => u,
        _ => {
            return None;
        },
    };
    let target_id = match use_.id {
        Some(t) => t,
        None => {
            return None;
        },
    };
    if primary.get(target_id).is_some() {
        // A local reexport; handled by ordinary reachability.
        return None;
    }
    let summary = match find_summary(&primary.paths, target_id) {
        Some(sm) => sm,
        None => {
            return None;
        },
    };
    let ext = match find_extern(&primary.external_crates, summary.crate_id) {
        Some(e) => e,
        None => {
            return None;
        },
    };
    if find_ref(refs, ext.name.as_str()).is_some() {
        let path = crate::model::reachability::copy_path(&summary.path);
        Some(CrossCrateUse { use_item: item.id, crate_name: copy_str(ext.name.as_str()), path })
    } else {
        None
    }
}

/// The cross-crate uses of the primary crate, in increasing use-item id order
/// (stable).
fn collect_cross_crate_uses(primary: &Crate, references: &Vec<(String, Crate)>) -> (r: Vec<CrossCrateUse>)
    ensures
        r@.map_values(|u: CrossCrateUse| use_view(u)) == sort_uses(cross_uses(*primary, references@, primary.index@)),
{
    let ghost all = cross_uses(*primary, references@, primary.index@);
    let mut out: Vec<CrossCrateUse> = Vec::new();
    let mut i: usize = 0;
    assert(out@.map_values(|u: CrossCrateUse| use_view(u)) =~= sort_uses(
        cross_uses(*primary, references@, primary.index@.take(0)),
    ));
    while i < primary.index.len()
        invariant
            i <= primary.index@.len(),
            out@.map_values(|u: CrossCrateUse| use_view(u)) == sort_uses(
                cross_uses(*primary, references@, primary.index@.take(i as int)),
            ),
        decreases primary.index@.len() - i,
    {
        let ghost pre = primary.index@.take(i as int);
        assert(primary.index@.take(i + 1).drop_last() =~= pre);
        assert(primary.index@.take(i + 1).last() == primary.index@[i as int]);
        if let Some(u) = cross_use(primary, references, &primary.index[i]) {
            let ghost r0 = out@.map_values(|u: CrossCrateUse| use_view(u));
            let ghost x = use_view(u);
            let mut pos: usize = 0;
            while pos < out.len() && !(u.use_item.0 < out[pos].use_item.0)
                invariant
                    pos <= out@.len(),
                    r0 == out@.map_values(|u: CrossCrateUse| use_view(u)),
                    x == use_view(u),
                    forall|j: int| 0 <= j < pos ==> !(x.0.0 < (#[trigger] r0[j]).0.0),
                decreases out@.len() - pos,
            {
                assert(r0[pos as int] == use_view(out@[pos as int]));
                pos += 1;
            }
            proof {
                if pos < out@.len() {
                    assert(r0[pos as int] == use_view(out@[pos as int]));
                }
                lemma_use_insert_scan(r0, x, pos as int);
                let s1 = cross_uses(*primary, references@, primary.index@.take(i + 1));
                assert(s1.drop_last() =~= cross_uses(*primary, references@, pre));
            }
            out.insert(pos, u);
            assert(out@.map_values(|u: CrossCrateUse| use_view(u)) =~= r0.insert(pos as int, x));
        }
        i += 1;
    }
    assert(primary.index@.take(primary.index@.len() as int) =~= primary.index@);
    out
}

/// The id a reference crate's `paths` give path `p` (the first entry with
/// that path).
pub open spec fn path_target(ps: Seq<(Id, ItemSummary)>, p: Seq<Seq<char>>) -> Option<Id>
    decreases ps.len(),
{
    if ps.len() == 0 {
        None
    } else if texts(ps[0].1.path@) == p {
        Some(ps[0].0)
    } else {
        path_target(ps.drop_first(), p)
    }
}

/// The id a reference crate's `paths` give a path.
fn reverse_path(krate: &Crate, path: &Vec<String>) -> (r: Option<Id>)
    ensures
        r == path_target(krate.paths@, texts(path@)),
{
    let ps = &krate.paths;
    let mut i: usize = 0;
    assert(ps@.skip(0) =~= ps@);
    while i < ps.len()
        invariant
            i <= ps@.len(),
            ps == &krate.paths,
            path_target(ps@, texts(path@)) == path_target(ps@.skip(i as int), texts(path@)),
        decreases ps@.len() - i,
    {
        assert(ps@.skip(i as int)[0] == ps@[i as int]);
        if crate::model::segments_equal(ps[i].1.path.as_slice(), path.as_slice()) {
            return Some(ps[i].0);
        }
        assert(ps@.skip(i as int).drop_first() =~= ps@.skip(i + 1));
        i += 1;
    }
    None
}

/// The largest id number among `ids` (0 when there are none).
pub open spec fn max_id(ids: Seq<Id>) -> nat
    decreases ids.len(),
{
    if ids.len() == 0 {
        0
    } else {
        let m = max_id(ids.drop_last());
        if ids.last().0 > m {
            ids.last().0 as nat
        } else {
            m
        }
    }
}

/// The ids of a `paths` table.
pub open spec fn path_ids(ps: Seq<(Id, ItemSummary)>) -> Seq<Id> {
    ps.map_values(|e: (Id, ItemSummary)| e.0)
}

/// One more than every id the crate uses.
pub open spec fn free_id(k: Crate) -> nat {
    let a = max_id(index_ids(k.index@));
    let b = max_id(path_ids(k.paths@));
    (if a > b {
        a
    } else {
        b
    }) + 1
}

/// The largest id number of a list.
fn max_of(ids: &Vec<Id>) -> (r: u32)
    ensures
        r == max_id(ids@),
{
    let mut m: u32 = 0;
    let mut i: usize = 0;
    while i < ids.len()
        invariant
            i <= ids@.len(),
            m == max_id(ids@.take(i as int)),
        decreases ids@.len() - i,
    {
        assert(ids@.take(i + 1).drop_last() =~= ids@.take(i as int));
        if ids[i].0 > m {
            m = ids[i].0;
        }
        i += 1;
    }
    assert(ids@.take(ids@.len() as int) =~= ids@);
    m
}

/// One more than every id the crate uses.
fn next_free_id(krate: &Crate) -> (r: u64)
    ensures
        r == free_id(*krate),
{
    let mut a: Vec<Id> = Vec::new();
    let mut i: usize = 0;
    while i < krate.index.len()
        invariant
            i <= krate.index@.len(),
            a@ == index_ids(krate.index@).take(i as int),
        decreases krate.index@.len() - i,
    {
        a.push(krate.index[i].id);
        assert(a@ =~= index_ids(krate.index@).take(i + 1));
        i += 1;
    }
    assert(index_ids(krate.index@).take(krate.index@.len() as int) =~= index_ids(krate.index@));
    let mut b: Vec<Id> = Vec::new();
    let mut j: usize = 0;
    while j < krate.paths.len()
        invariant
            j <= krate.paths@.len(),
            b@ == path_ids(krate.paths@).take(j as int),
        decreases krate.paths@.len() - j,
    {
        b.push(krate.paths[j].0);
        assert(b@ =~= path_ids(krate.paths@).take(j + 1));
        j += 1;
    }
    assert(path_ids(krate.paths@).take(krate.paths@.len() as int) =~= path_ids(krate.paths@));
    let max_index = max_of(&a);
    let max_paths = max_of(&b);
    if max_index > max_paths {
        max_index as u64 + 1
    } else {
        max_paths as u64 + 1
    }
}


// ---------------------------------------------------------------------------
// Inlining

/// The position of the first item with id `id`.
pub open spec fn item_pos(index: Seq<Item>, id: Id) -> Option<int>
    decreases index.len(),
{
    if index.len() == 0 {
        None
    } else if index[0].id == id {
        Some(0)
    } else {
        match item_pos(index.drop_first(), id) {
            Some(i) => Some(i + 1),
            None => None,
        }
    }
}

/// `index` with the `use` item `use_id` (its first item with that id)
/// pointed at `v`; unchanged when that item is not a `use`.
pub open spec fn repointed(index: Seq<Item>, use_id: Id, v: Id) -> Seq<Item> {
    match item_pos(index, use_id) {
        Some(p) => match index[p].inner {
            ItemEnum::Use(u) => index.update(p, Item { inner: ItemEnum::Use(Use { id: Some(v), ..u }), ..index[p] }),
            _ => index,
        },
        None => index,
    }
}

/// A finished copy of `sid` from `src` with new ids from `base`: one item
/// made per memo entry, the first entry being `sid` itself when the reference
/// crate holds it, and nothing otherwise; the new ids are handed out in the
/// depth-first preorder of the walk from `sid`.
pub open spec fn copy_done(st: Copier, src: Crate, sid: Id, base: int) -> bool {
    &&& copier_wf(st, src, base)
    &&& st.memo@.len() == st.added@.len()
    &&& src_has(src, sid) ==> st.memo@.len() > 0 && st.memo@[0].0 == sid
    &&& !src_has(src, sid) ==> st.memo@.len() == 0
    &&& memo_keys(st.memo@) == dfs_from(src, src.index@.len(), seq![], sid)
}

/// One inlining step for use `t`: when the reference crate it names and the
/// id its path resolves to exist, the copy's items are appended to the
/// index, the use is pointed at the copy of its target, the copy's origins
/// are recorded and its ids are taken; otherwise nothing changes.
pub open spec fn inline_step(
    k0: Crate,
    os0: Seq<(Id, Seq<Seq<char>>)>,
    n0: nat,
    t: UseTarget,
    refs: Seq<(String, Crate)>,
    k1: Crate,
    os1: Seq<(Id, Seq<Seq<char>>)>,
    n1: nat,
) -> bool {
    &&& k1.root == k0.root
    &&& k1.paths == k0.paths
    &&& k1.external_crates == k0.external_crates
    &&& k1.format_version == k0.format_version
    &&& match ref_of(refs, t.1) {
        None => k1.index@ == k0.index@ && os1 == os0 && n1 == n0,
        Some(src) => match path_target(src.paths@, t.2) {
            None => k1.index@ == k0.index@ && os1 == os0 && n1 == n0,
            Some(sid) => exists|st: Copier|
                #![trigger copy_done(st, src, sid, n0 as int)]
                {
                    &&& copy_done(st, src, sid, n0 as int)
                    &&& n1 == n0 + st.memo@.len()
                    &&& os1 == os0 + origins_for(st.memo@, src)
                    &&& k1.index@ == if src_has(src, sid) {
                        repointed(k0.index@ + st.added@, t.0, st.memo@[0].1)
                    } else {
                        k0.index@
                    }
                },
        },
    }
}

/// A trace of inlining the uses `ts` in order: the states before and after
/// each use (crate, origins so far, next id), starting from `k`, `os`, `n`,
/// each pair related by `inline_step`.
pub open spec fn inline_trace(
    k: Crate,
    os: Seq<(Id, Seq<Seq<char>>)>,
    n: nat,
    ts: Seq<UseTarget>,
    refs: Seq<(String, Crate)>,
    ks: Seq<Crate>,
    oss: Seq<Seq<(Id, Seq<Seq<char>>)>>,
    ns: Seq<nat>,
) -> bool {
    &&& ks.len() == ts.len() + 1
    &&& oss.len() == ts.len() + 1
    &&& ns.len() == ts.len() + 1
    &&& ks[0] == k
    &&& oss[0] == os
    &&& ns[0] == n
    &&& forall|i: int|
        0 <= i < ts.len() ==> #[trigger] inline_step(ks[i], oss[i], ns[i], ts[i], refs, ks[i + 1], oss[i + 1], ns[i + 1])
}

proof fn lemma_use_insert_bound(r: Seq<UseTarget>, x: UseTarget)
    ensures
        0 <= use_insert_at(r, x) <= r.len(),
    decreases r.len(),
{
    if r.len() > 0 && !(x.0.0 < r[0].0.0) {
        lemma_use_insert_bound(r.drop_first(), x);
    }
}

proof fn lemma_sort_uses_len(s: Seq<UseTarget>)
    ensures
        sort_uses(s).len() == s.len(),
    decreases s.len(),
{
    if s.len() > 0 {
        lemma_sort_uses_len(s.drop_last());
        lemma_use_insert_bound(sort_uses(s.drop_last()), s.last());
    }
}

proof fn lemma_trace_extend(
    k0: Crate,
    ts: Seq<UseTarget>,
    t: int,
    refs: Seq<(String, Crate)>,
    ks: Seq<Crate>,
    oss: Seq<Seq<(Id, Seq<Seq<char>>)>>,
    ns: Seq<nat>,
    k1: Crate,
    o1: Seq<(Id, Seq<Seq<char>>)>,
    n1: nat,
)
    requires
        0 <= t < ts.len(),
        inline_trace(k0, seq![], free_id(k0), ts.take(t), refs, ks, oss, ns),
        inline_step(ks.last(), oss.last(), ns.last(), ts[t], refs, k1, o1, n1),
    ensures
        inline_trace(k0, seq![], free_id(k0), ts.take(t + 1), refs, ks.push(k1), oss.push(o1), ns.push(n1)),
{
    let ts1 = ts.take(t + 1);
    assert forall|i: int| 0 <= i < ts1.len() implies #[trigger] inline_step(
        ks.push(k1)[i],
        oss.push(o1)[i],
        ns.push(n1)[i],
        ts1[i],
        refs,
        ks.push(k1)[i + 1],
        oss.push(o1)[i + 1],
        ns.push(n1)[i + 1],
    ) by {
        if i < t {
            assert(ts1[i] == ts.take(t)[i]);
            assert(inline_step(ks[i], oss[i], ns[i], ts.take(t)[i], refs, ks[i + 1], oss[i + 1], ns[i + 1]));
        }
    }
}

/// How many items inlining the use `t` copies: the item its path names in
/// the reference crate it names, with everything that item contains.
pub open spec fn copy_count(refs: Seq<(String, Crate)>, t: UseTarget) -> nat {
    match ref_of(refs, t.1) {
        None => 0,
        Some(src) => match path_target(src.paths@, t.2) {
            None => 0,
            Some(sid) => closure(src, sid).len(),
        },
    }
}

/// How many items inlining the uses `ts` copies in all.
pub open spec fn copies_total(refs: Seq<(String, Crate)>, ts: Seq<UseTarget>) -> nat
    decreases ts.len(),
{
    if ts.len() == 0 {
        0
    } else {
        copy_count(refs, ts[0]) + copies_total(refs, ts.drop_first())
    }
}

/// Whether the fresh ids that inlining hands out stay within `u32`: the
/// first free id plus the number of items copied.
pub open spec fn id_room(primary: Crate, refs: Seq<(String, Crate)>) -> bool {
    refs.len() > 0 ==> free_id(primary) + copies_total(refs, sort_uses(cross_uses(primary, refs, primary.index@)))
        <= u32::MAX
}

/// A finished copier holds no more items than the closure of its first one.
proof fn lemma_memo_fits(st: Copier, src: Crate, base: int, sid: Id)
    requires
        copier_wf(st, src, base),
        st.memo@.len() > 0 ==> st.memo@[0].0 == sid,
    ensures
        st.memo@.len() <= closure(src, sid).len(),
{
    if st.memo@.len() > 0 {
        let keys = memo_keys(st.memo@);
        let n = src.index@.len();
        lemma_reach_held(src, sid, n);
        assert forall|y: Id| keys.to_set().contains(y) implies closure(src, sid).contains(y) by {
            let i = choose|i: int| 0 <= i < keys.len() && keys[i] == y;
            assert(keys[i] == st.memo@[i].0);
            lemma_memo_reach(st.memo@, src, i);
            lemma_reach_mono(src, sid, i as nat, n);
        }
        assert(keys.no_duplicates()) by {
            assert forall|i: int, j: int| 0 <= i < keys.len() && 0 <= j < keys.len() && i != j implies keys[i] != keys[j] by {
                if i < j {
                    assert(st.memo@[i].0 != st.memo@[j].0);
                } else {
                    assert(st.memo@[j].0 != st.memo@[i].0);
                }
            }
        }
        keys.unique_seq_to_set();
        vstd::set_lib::lemma_len_subset(keys.to_set(), closure(src, sid));
    }
}

proof fn lemma_push_contains<A>(s: Seq<A>, x: A)
    ensures
        forall|c: A| #[trigger] s.push(x).contains(c) <==> s.contains(c) || c == x,
{
    assert forall|c: A| #[trigger] s.push(x).contains(c) <==> s.contains(c) || c == x by {
        if s.push(x).contains(c) && c != x {
            let k = choose|k: int| 0 <= k < s.push(x).len() && s.push(x)[k] == c;
            assert(s[k] == c);
        }
        if s.contains(c) {
            let k = choose|k: int| 0 <= k < s.len() && s[k] == c;
            assert(s.push(x)[k] == c);
        }
        if c == x {
            assert(s.push(x)[s.len() as int] == c);
        }
    }
}

/// Appends `ids` to `out`.
fn push_ids(out: &mut Vec<Id>, ids: &Vec<Id>)
    ensures
        forall|c: Id| #[trigger] final(out)@.contains(c) <==> old(out)@.contains(c) || ids@.contains(c),
{
    let mut i: usize = 0;
    assert(ids@.take(0) =~= Seq::<Id>::empty());
    while i < ids.len()
        invariant
            i <= ids@.len(),
            forall|c: Id| #[trigger] out@.contains(c) <==> old(out)@.contains(c) || ids@.take(i as int).contains(c),
        decreases ids@.len() - i,
    {
        let ghost before = out@;
        let ghost ti = ids@.take(i as int);
        out.push(ids[i]);
        proof {
            assert(ids@.take(i + 1) =~= ti.push(ids@[i as int]));
            lemma_push_contains(before, ids@[i as int]);
            lemma_push_contains(ti, ids@[i as int]);
        }
        i += 1;
    }
    assert(ids@.take(ids@.len() as int) =~= ids@);
}

/// Appends the present ids of `ids` to `out`.
fn push_some_ids(out: &mut Vec<Id>, ids: &Vec<Option<Id>>)
    ensures
        forall|c: Id| #[trigger] final(out)@.contains(c) <==> old(out)@.contains(c) || ids@.contains(Some(c)),
{
    let mut i: usize = 0;
    assert(ids@.take(0) =~= Seq::<Option<Id>>::empty());
    while i < ids.len()
        invariant
            i <= ids@.len(),
            forall|c: Id| #[trigger] out@.contains(c) <==> old(out)@.contains(c) || ids@.take(i as int).contains(Some(c)),
        decreases ids@.len() - i,
    {
        let ghost before = out@;
        let ghost ti = ids@.take(i as int);
        if let Some(x) = ids[i] {
            out.push(x);
            proof {
                lemma_push_contains(before, x);
            }
        }
        proof {
            assert(ids@.take(i + 1) =~= ti.push(ids@[i as int]));
            lemma_push_contains(ti, ids@[i as int]);
        }
        i += 1;
    }
    assert(ids@.take(ids@.len() as int) =~= ids@);
}

/// The items `inner` contains, in the lists that inlining follows.
fn children(inner: &ItemEnum) -> (r: Vec<Id>)
    ensures
        forall|c: Id| #[trigger] r@.contains(c) <==> contains_child(*inner, c),
{
    let mut out: Vec<Id> = Vec::new();
    match inner {
        ItemEnum::Module(m) => push_ids(&mut out, &m.items),
        ItemEnum::Struct(x) => {
            match &x.kind {
                StructKind::Unit => {},
                StructKind::Tuple(f) => push_some_ids(&mut out, f),
                StructKind::Plain { fields, .. } => push_ids(&mut out, fields),
            }
            push_ids(&mut out, &x.impls);
        },
        ItemEnum::Enum(x) => {
            push_ids(&mut out, &x.variants);
            push_ids(&mut out, &x.impls);
        },
        ItemEnum::Union(x) => {
            push_ids(&mut out, &x.fields);
            push_ids(&mut out, &x.impls);
        },
        ItemEnum::Variant(x) => match &x.kind {
            VariantKind::Plain => {},
            VariantKind::Tuple(f) => push_some_ids(&mut out, f),
            VariantKind::Struct { fields, .. } => push_ids(&mut out, fields),
        },
        ItemEnum::Trait(x) => {
            push_ids(&mut out, &x.items);
            push_ids(&mut out, &x.implementations);
        },
        ItemEnum::Impl(x) => push_ids(&mut out, &x.items),
        _ => {},
    }
    out
}

/// Whether `v` holds `c`.
fn has_id(v: &Vec<Id>, c: Id) -> (b: bool)
    ensures
        b == v@.contains(c),
{
    let mut k: usize = 0;
    assert(v@.take(0) =~= Seq::<Id>::empty());
    while k < v.len()
        invariant
            k <= v@.len(),
            !v@.take(k as int).contains(c),
        decreases v@.len() - k,
    {
        if v[k] == c {
            assert(v@[k as int] == c);
            return true;
        }
        proof {
            assert(v@.take(k + 1) =~= v@.take(k as int).push(v@[k as int]));
            lemma_push_contains(v@.take(k as int), v@[k as int]);
        }
        k += 1;
    }
    assert(v@.take(v@.len() as int) =~= v@);
    false
}

/// Adding `c`, a held item contained in `vb[i]`, keeps what a traversal
/// from `sid` knows.
proof fn lemma_visit_push(src: Crate, vb: Seq<Id>, i: int, c: Id, j: int, cs: Seq<Id>)
    requires
        0 <= i < vb.len(),
        child_of(src, vb[i], c),
        !vb.contains(c),
        src_has(src, c),
        forall|a: int| 0 < a < vb.len() ==> #[trigger] has_parent(self_pairs(vb), src, a),
        forall|a: int, x: Id| 0 <= a < i && src_has(src, x) && #[trigger] child_of(src, vb[a], x) ==> vb.contains(x),
        0 <= j < cs.len(),
        cs[j] == c,
        forall|q: int| 0 <= q < j && src_has(src, #[trigger] cs[q]) ==> vb.contains(cs[q]),
    ensures
        forall|a: int| 0 < a < vb.push(c).len() ==> #[trigger] has_parent(self_pairs(vb.push(c)), src, a),
        forall|a: int, x: Id|
            0 <= a < i && src_has(src, x) && #[trigger] child_of(src, vb.push(c)[a], x) ==> vb.push(c).contains(x),
        forall|q: int| 0 <= q < j + 1 && src_has(src, #[trigger] cs[q]) ==> vb.push(c).contains(cs[q]),
{
    let v = vb.push(c);
    lemma_push_contains(vb, c);
    assert forall|a: int| 0 < a < v.len() implies #[trigger] has_parent(self_pairs(v), src, a) by {
        if a < vb.len() {
            assert(has_parent(self_pairs(vb), src, a));
            let q = choose|q: int| 0 <= q < a && #[trigger] child_of(src, self_pairs(vb)[q].0, self_pairs(vb)[a].0);
            assert(self_pairs(v)[q] == self_pairs(vb)[q]);
            assert(self_pairs(v)[a] == self_pairs(vb)[a]);
        } else {
            assert(self_pairs(v)[i].0 == vb[i]);
            assert(self_pairs(v)[a].0 == c);
            assert(child_of(src, self_pairs(v)[i].0, self_pairs(v)[a].0));
        }
    }
    assert forall|a: int, x: Id| 0 <= a < i && src_has(src, x) && #[trigger] child_of(src, v[a], x) implies v.contains(x) by {
        assert(v[a] == vb[a]);
    }
}

/// The ids of `v` paired with themselves, as a memo.
pub open spec fn self_pairs(v: Seq<Id>) -> Seq<(Id, Id)> {
    v.map_values(|x: Id| (x, x))
}

proof fn lemma_reach_empty(src: Crate, s: Id, n: nat)
    requires
        !src_has(src, s),
    ensures
        reach(src, s, n) == Set::<Id>::empty(),
    decreases n,
{
    if n > 0 {
        lemma_reach_empty(src, s, (n - 1) as nat);
        assert(reach(src, s, n) =~= Set::<Id>::empty());
    }
}

/// A set of held items that holds `s` and every held item contained in one
/// of its items holds all that is reached from `s`.
proof fn lemma_reach_within(src: Crate, s: Id, n: nat, v: Set<Id>)
    requires
        v.contains(s),
        forall|p: Id, c: Id| v.contains(p) && src_has(src, c) && #[trigger] child_of(src, p, c) ==> v.contains(c),
    ensures
        reach(src, s, n).subset_of(v),
    decreases n,
{
    if n > 0 {
        lemma_reach_within(src, s, (n - 1) as nat, v);
    }
}

/// The number of items copying `sid` takes.
fn closure_len(src: &Crate, sid: Id) -> (n: usize)
    ensures
        n == closure(*src, sid).len(),
{
    let ghost cl = closure(*src, sid);
    proof {
        lemma_reach_held(*src, sid, src.index@.len());
    }
    if src.get(sid).is_none() {
        proof {
            lemma_reach_empty(*src, sid, src.index@.len());
        }
        return 0;
    }
    let mut visited: Vec<Id> = Vec::new();
    visited.push(sid);
    let mut i: usize = 0;
    while i < visited.len()
        invariant
            0 <= i <= visited@.len(),
            visited@.len() >= 1,
            visited@[0] == sid,
            forall|a: int, b: int| 0 <= a < b < visited@.len() ==> visited@[a] != visited@[b],
            forall|a: int| 0 <= a < visited@.len() ==> src_has(*src, #[trigger] visited@[a]),
            forall|a: int| 0 < a < visited@.len() ==> #[trigger] has_parent(self_pairs(visited@), *src, a),
            forall|a: int, c: Id|
                0 <= a < i && src_has(*src, c) && #[trigger] child_of(*src, visited@[a], c) ==> visited@.contains(c),
        decreases src.index@.len() - i,
    {
        proof {
            lemma_keys_bound(visited@, *src);
        }
        let p = visited[i];
        let item = src.get(p).unwrap();
        let cs = children(&item.inner);
        let ghost v0 = visited@;
        let mut j: usize = 0;
        while j < cs.len()
            invariant
                0 <= i < v0.len() <= visited@.len(),
                visited@.take(v0.len() as int) == v0,
                visited@[0] == sid,
                p == v0[i as int],
                lookup(src.index@, p) == Some(*item),
                forall|c: Id| #[trigger] cs@.contains(c) <==> contains_child(item.inner, c),
                j <= cs@.len(),
                forall|a: int, b: int| 0 <= a < b < visited@.len() ==> visited@[a] != visited@[b],
                forall|a: int| 0 <= a < visited@.len() ==> src_has(*src, #[trigger] visited@[a]),
                forall|a: int| 0 < a < visited@.len() ==> #[trigger] has_parent(self_pairs(visited@), *src, a),
                forall|a: int, c: Id|
                    0 <= a < i && src_has(*src, c) && #[trigger] child_of(*src, visited@[a], c) ==> visited@.contains(c),
                forall|q: int| 0 <= q < j && src_has(*src, #[trigger] cs@[q]) ==> visited@.contains(cs@[q]),
            decreases cs@.len() - j,
        {
            let c = cs[j];
            let ghost vb = visited@;
            let seen = has_id(&visited, c);
            if !seen && src.get(c).is_some() {
                proof {
                    assert(cs@.contains(c));
                    assert(child_of(*src, vb[i as int], c));
                    lemma_visit_push(*src, vb, i as int, c, j as int, cs@);
                }
                visited.push(c);
                proof {
                    assert(visited@ == vb.push(c));
                    lemma_push_contains(vb, c);
                    assert(visited@.take(v0.len() as int) =~= v0);
                }
            } else {
                proof {
                    assert forall|q: int| 0 <= q < j + 1 && src_has(*src, #[trigger] cs@[q]) implies visited@.contains(cs@[q]) by {
                        if q == j {
                            if !seen {
                                assert(lookup(src.index@, c) is None);
                            }
                        }
                    }
                }
            }
            j += 1;
        }
        proof {
            assert forall|a: int, c: Id|
                0 <= a < i + 1 && src_has(*src, c) && #[trigger] child_of(*src, visited@[a], c) implies visited@.contains(c) by {
                if a == i {
                    assert(visited@[a] == v0[i as int]);
                    assert(contains_child(item.inner, c));
                    assert(cs@.contains(c));
                    let q = choose|q: int| 0 <= q < cs@.len() && cs@[q] == c;
                    assert(src_has(*src, cs@[q]));
                }
            }
        }
        i += 1;
    }
    proof {
        let v = visited@;
        let n = src.index@.len();
        assert forall|a: int, b: int| 0 <= a < v.len() && 0 <= b < v.len() && a != b implies v[a] != v[b] by {
            if a < b {
            } else {
                assert(v[b] != v[a]);
            }
        }
        lemma_keys_bound(v, *src);
        let pv = self_pairs(v);
        assert forall|a: int| 0 <= a < pv.len() implies src_has(*src, #[trigger] pv[a].0) by {
            assert(pv[a].0 == v[a]);
        }
        assert forall|y: Id| v.to_set().contains(y) implies cl.contains(y) by {
            let a = choose|a: int| 0 <= a < v.len() && v[a] == y;
            lemma_memo_reach(pv, *src, a);
            assert(pv[0].0 == sid && pv[a].0 == y);
            lemma_reach_mono(*src, sid, a as nat, n);
        }
        assert forall|p: Id, c: Id| v.to_set().contains(p) && src_has(*src, c) && #[trigger] child_of(*src, p, c) implies v.to_set().contains(c) by {
            let a = choose|a: int| 0 <= a < v.len() && v[a] == p;
            assert(child_of(*src, v[a], c));
        }
        assert(v.to_set().contains(sid)) by {
            assert(v[0] == sid);
        }
        lemma_reach_within(*src, sid, n, v.to_set());
        assert(v.to_set() =~= cl);
        v.unique_seq_to_set();
    }
    visited.len()
}

proof fn lemma_copies_total_skip(refs: Seq<(String, Crate)>, ts: Seq<UseTarget>, a: int)
    requires
        0 <= a <= ts.len(),
    ensures
        copies_total(refs, ts.skip(a)) <= copies_total(refs, ts),
    decreases a,
{
    if a > 0 {
        lemma_copies_total_skip(refs, ts, a - 1);
        assert(ts.skip(a - 1).drop_first() =~= ts.skip(a));
    } else {
        assert(ts.skip(0) =~= ts);
    }
}

/// Whether [`inline_reexports`] has room for the fresh ids it hands out.
pub fn has_id_room(primary: &Crate, references: &Vec<(String, Crate)>) -> (b: bool)
    ensures
        b == id_room(*primary, references@),
{
    if references.len() == 0 {
        return true;
    }
    let targets = collect_cross_crate_uses(primary, references);
    let ghost ts = sort_uses(cross_uses(*primary, references@, primary.index@));
    proof {
        lemma_sort_uses_len(cross_uses(*primary, references@, primary.index@));
        assert(targets@.map_values(|u: CrossCrateUse| use_view(u)).len() == targets@.len());
    }
    let free = next_free_id(primary);
    if free > u32::MAX as u64 {
        return false;
    }
    let mut total: u64 = 0;
    let mut t: usize = targets.len();
    assert(ts.skip(ts.len() as int) =~= Seq::<UseTarget>::empty());
    while t > 0
        invariant
            t <= targets@.len(),
            targets@.map_values(|u: CrossCrateUse| use_view(u)) == ts,
            total == copies_total(references@, ts.skip(t as int)),
            free == free_id(*primary),
            free + total <= u32::MAX,
            references@.len() > 0,
            ts == sort_uses(cross_uses(*primary, references@, primary.index@)),
        decreases t,
    {
        t -= 1;
        let target = &targets[t];
        assert(ts[t as int] == use_view(*target));
        assert(ts.skip(t as int).drop_first() =~= ts.skip(t + 1));
        assert(ts.skip(t as int)[0] == ts[t as int]);
        let count: usize = match find_ref(references, target.crate_name.as_str()) {
            None => 0,
            Some(src) => match reverse_path(src, &target.path) {
                None => 0,
                Some(sid) => closure_len(src, sid),
            },
        };
        assert(count == copy_count(references@, ts[t as int]));
        assert(copies_total(references@, ts.skip(t as int)) == copy_count(references@, ts[t as int])
            + copies_total(references@, ts.skip(t + 1)));
        if count as u64 > u32::MAX as u64 - free - total {
            proof {
                lemma_copies_total_skip(references@, ts, t as int);
                assert(copies_total(references@, ts.skip(t + 1)) == total);
                assert(free + copies_total(references@, ts.skip(t as int)) > u32::MAX);
                assert(free_id(*primary) + copies_total(references@, ts) > u32::MAX);
            }
            return false;
        }
        total = total + count as u64;
    }
    assert(ts.skip(0) =~= ts);
    true
}

// ---------------------------------------------------------------------------
// What inlining leaves alone

/// The item `a` with its `use` `u` pointed at `x`.
pub open spec fn pointed(a: Item, u: Use, x: Id) -> Item {
    Item { inner: ItemEnum::Use(Use { id: Some(x), ..u }), ..a }
}

/// `b` is `a`, or `a` is a `use` pointed at an id of at least `lo`.
pub open spec fn kept(a: Item, b: Item, lo: nat) -> bool {
    ||| b == a
    ||| match a.inner {
        ItemEnum::Use(u) => exists|x: Id| x.0 >= lo && #[trigger] pointed(a, u, x) == b,
        _ => false,
    }
}

/// `k` is `k0` with items added: the same root, paths, external crates and
/// format version; every old item kept in its place (a `use` possibly
/// pointed at a new id); the items after them with distinct ids in
/// `[lo, hi)`.
pub open spec fn inline_frame(k0: Crate, k: Crate, lo: nat, hi: nat) -> bool {
    &&& k.root == k0.root
    &&& k.paths == k0.paths
    &&& k.external_crates == k0.external_crates
    &&& k.format_version == k0.format_version
    &&& k0.index@.len() <= k.index@.len()
    &&& forall|i: int| 0 <= i < k0.index@.len() ==> #[trigger] kept(k0.index@[i], k.index@[i], lo)
    &&& forall|i: int| k0.index@.len() <= i < k.index@.len() ==> lo <= (#[trigger] k.index@[i]).id.0 < hi
    &&& forall|i: int, j: int|
        k0.index@.len() <= i < j < k.index@.len() ==> #[trigger] k.index@[i].id != #[trigger] k.index@[j].id
}

/// Every origin key lies in `[lo, hi)`.
pub open spec fn origins_within(os: Seq<(Id, Seq<Seq<char>>)>, lo: nat, hi: nat) -> bool {
    forall|i: int| 0 <= i < os.len() ==> lo <= (#[trigger] os[i]).0.0 < hi
}

proof fn lemma_origins_for_within(es: Seq<(Id, Id)>, src: Crate, lo: nat, hi: nat)
    requires
        forall|i: int| 0 <= i < es.len() ==> lo <= (#[trigger] es[i]).1.0 < hi,
    ensures
        origins_within(origins_for(es, src), lo, hi),
    decreases es.len(),
{
    if es.len() > 0 {
        lemma_origins_for_within(es.drop_last(), src, lo, hi);
        let r = origins_for(es.drop_last(), src);
        assert forall|i: int| 0 <= i < origins_for(es, src).len() implies lo <= (#[trigger] origins_for(es, src)[i]).0.0
            < hi by {
            if i < r.len() {
                assert(origins_for(es, src)[i] == r[i]);
            } else {
                assert(es.last() == es[es.len() - 1]);
            }
        }
    }
}

proof fn lemma_item_pos(index: Seq<Item>, id: Id)
    ensures
        item_pos(index, id) matches Some(p) ==> 0 <= p < index.len() && index[p].id == id,
    decreases index.len(),
{
    if index.len() > 0 && index[0].id != id {
        lemma_item_pos(index.drop_first(), id);
    }
}

/// `x` is the id of an item after the first `n0` items.
pub open spec fn indexed_after(k: Crate, n0: nat, x: Id) -> bool {
    exists|p: int| n0 <= p < k.index@.len() && (#[trigger] k.index@[p]).id == x
}

/// Every origin key is the id of an item added after the first `n0` items.
pub open spec fn origins_indexed(os: Seq<(Id, Seq<Seq<char>>)>, n0: nat, k: Crate) -> bool {
    forall|i: int| 0 <= i < os.len() ==> indexed_after(k, n0, (#[trigger] os[i]).0)
}

/// `x` is the new id of a memo entry.
pub open spec fn memo_new(es: Seq<(Id, Id)>, x: Id) -> bool {
    exists|j: int| 0 <= j < es.len() && (#[trigger] es[j]).1 == x
}

proof fn lemma_origins_for_keys(es: Seq<(Id, Id)>, src: Crate)
    ensures
        forall|i: int| 0 <= i < origins_for(es, src).len() ==> memo_new(es, (#[trigger] origins_for(es, src)[i]).0),
    decreases es.len(),
{
    if es.len() > 0 {
        lemma_origins_for_keys(es.drop_last(), src);
        let r = origins_for(es.drop_last(), src);
        assert forall|i: int| 0 <= i < origins_for(es, src).len() implies memo_new(es, (#[trigger] origins_for(es, src)[i]).0) by {
            assert(origins_for(es, src) == match path_of(src.paths@, es.last().0) {
                Some(p) => r.push((es.last().1, p)),
                None => r,
            });
            if i < r.len() {
                assert(origins_for(es, src)[i] == r[i]);
                assert(memo_new(es.drop_last(), r[i].0));
                let j = choose|j: int| 0 <= j < es.drop_last().len() && (#[trigger] es.drop_last()[j]).1 == r[i].0;
                assert(es[j] == es.drop_last()[j]);
            } else {
                let j = es.len() - 1;
                assert(es[j] == es.last());
                assert(es[j].1 == origins_for(es, src)[i].0);
            }
        }
    }
}

proof fn lemma_indexed_same(os: Seq<(Id, Seq<Seq<char>>)>, n: nat, a: Crate, b: Crate)
    requires
        origins_indexed(os, n, a),
        a.index@ == b.index@,
    ensures
        origins_indexed(os, n, b),
{
    assert forall|i: int| 0 <= i < os.len() implies indexed_after(b, n, (#[trigger] os[i]).0) by {
        assert(indexed_after(a, n, os[i].0));
        let p = choose|p: int| n <= p < a.index@.len() && (#[trigger] a.index@[p]).id == os[i].0;
        assert(b.index@[p] == a.index@[p]);
    }
}

/// A finished copy made one item for each memo entry, with its new id.
proof fn lemma_copy_done_covers(st: Copier, src: Crate, sid: Id, base: int)
    requires
        copy_done(st, src, sid, base),
    ensures
        forall|i: int| 0 <= i < st.memo@.len() ==> exists|j: int|
            0 <= j < st.added@.len() && #[trigger] st.added@[j].id == (#[trigger] st.memo@[i]).1,
{
    let n = st.memo@.len() as int;
    let offs = st.added@.map_values(|a: Item| a.id.0 - base);
    assert forall|j: int| 0 <= j < offs.len() implies 0 <= #[trigger] offs[j] < n by {
        assert(added_ok(st, src, base, j));
    }
    assert(offs.no_duplicates()) by {
        assert forall|a: int, b: int| 0 <= a < offs.len() && 0 <= b < offs.len() && a != b implies offs[a] != offs[b] by {
            if a < b {
                assert(st.added@[a].id != st.added@[b].id);
            } else {
                assert(st.added@[b].id != st.added@[a].id);
            }
        }
    }
    offs.unique_seq_to_set();
    vstd::set_lib::lemma_int_range(0, n);
    assert(offs.to_set().subset_of(vstd::set_lib::set_int_range(0, n)));
    vstd::set_lib::lemma_set_subset_finite(vstd::set_lib::set_int_range(0, n), offs.to_set());
    vstd::set_lib::lemma_subset_equality(offs.to_set(), vstd::set_lib::set_int_range(0, n));
    assert forall|i: int| 0 <= i < st.memo@.len() implies exists|j: int|
        0 <= j < st.added@.len() && #[trigger] st.added@[j].id == (#[trigger] st.memo@[i]).1 by {
        assert(vstd::set_lib::set_int_range(0, n).contains(i));
        assert(offs.to_set().contains(i));
        let j = choose|j: int| 0 <= j < offs.len() && offs[j] == i;
        assert(st.added@[j].id.0 == st.memo@[i].1.0);
    }
}

proof fn lemma_list_covers(ids: Seq<Id>, src: Crate, memo: Seq<(Id, Id)>, c: Id)
    requires
        covered(ids, src, memo),
        ids.contains(c),
        src_has(src, c),
    ensures
        memo_get(memo, c) is Some,
{
    let i = choose|i: int| 0 <= i < ids.len() && ids[i] == c;
    assert(src_has(src, ids[i]));
}

proof fn lemma_opt_list_covers(ids: Seq<Option<Id>>, news: Seq<Option<Id>>, src: Crate, memo: Seq<(Id, Id)>, c: Id)
    requires
        opt_list_copied(ids, news, src, memo),
        ids.contains(Some(c)),
        src_has(src, c),
    ensures
        memo_get(memo, c) is Some,
{
    let i = choose|i: int| 0 <= i < ids.len() && ids[i] == Some(c);
    assert(opt_covered(ids[i], src, memo));
}

/// A copied item kind has copies of all it contains that the reference
/// crate holds.
proof fn lemma_copied_covers(a: ItemEnum, b: ItemEnum, src: Crate, memo: Seq<(Id, Id)>, c: Id)
    requires
        copied_inner(a, b, src, memo),
        contains_child(a, c),
        src_has(src, c),
    ensures
        memo_get(memo, c) is Some,
{
    match (a, b) {
        (ItemEnum::Module(x), ItemEnum::Module(y)) => lemma_list_covers(x.items@, src, memo, c),
        (ItemEnum::Struct(x), ItemEnum::Struct(y)) => {
            if x.impls@.contains(c) {
                lemma_list_covers(x.impls@, src, memo, c);
            } else {
                match (x.kind, y.kind) {
                    (StructKind::Tuple(f1), StructKind::Tuple(f2)) => lemma_opt_list_covers(f1@, f2@, src, memo, c),
                    (StructKind::Plain { fields: f1, .. }, StructKind::Plain { fields: f2, .. }) => lemma_list_covers(
                        f1@,
                        src,
                        memo,
                        c,
                    ),
                    _ => {},
                }
            }
        },
        (ItemEnum::Enum(x), ItemEnum::Enum(y)) => {
            if x.impls@.contains(c) {
                lemma_list_covers(x.impls@, src, memo, c);
            } else {
                lemma_list_covers(x.variants@, src, memo, c);
            }
        },
        (ItemEnum::Union(x), ItemEnum::Union(y)) => {
            if x.impls@.contains(c) {
                lemma_list_covers(x.impls@, src, memo, c);
            } else {
                lemma_list_covers(x.fields@, src, memo, c);
            }
        },
        (ItemEnum::Variant(x), ItemEnum::Variant(y)) => match (x.kind, y.kind) {
            (VariantKind::Tuple(f1), VariantKind::Tuple(f2)) => lemma_opt_list_covers(f1@, f2@, src, memo, c),
            (VariantKind::Struct { fields: f1, .. }, VariantKind::Struct { fields: f2, .. }) => lemma_list_covers(
                f1@,
                src,
                memo,
                c,
            ),
            _ => {},
        },
        (ItemEnum::Trait(x), ItemEnum::Trait(y)) => {
            if x.items@.contains(c) {
                lemma_list_covers(x.items@, src, memo, c);
            } else {
                lemma_list_covers(x.implementations@, src, memo, c);
            }
        },
        (ItemEnum::Impl(x), ItemEnum::Impl(y)) => lemma_list_covers(x.items@, src, memo, c),
        _ => {},
    }
}

/// A finished copy of `sid` takes exactly the closure of `sid`.
proof fn lemma_copy_is_closure(st: Copier, src: Crate, sid: Id, base: int)
    requires
        copy_done(st, src, sid, base),
    ensures
        st.memo@.len() == closure(src, sid).len(),
{
    let n = src.index@.len();
    lemma_reach_held(src, sid, n);
    if !src_has(src, sid) {
        lemma_reach_empty(src, sid, n);
    } else {
        let keys = memo_keys(st.memo@);
        lemma_copy_done_covers(st, src, sid, base);
        assert forall|p: Id, c: Id|
            keys.to_set().contains(p) && src_has(src, c) && #[trigger] child_of(src, p, c) implies keys.to_set().contains(c) by {
            let i = choose|i: int| 0 <= i < keys.len() && keys[i] == p;
            assert(keys[i] == st.memo@[i].0);
            let j = choose|j: int| 0 <= j < st.added@.len() && #[trigger] st.added@[j].id == st.memo@[i].1;
            assert(added_ok(st, src, base, j));
            assert(st.memo@[i].1.0 == base + i);
            let a = lookup(src.index@, p)->0;
            lemma_copied_covers(a.inner, st.added@[j].inner, src, st.memo@, c);
            lemma_memo_get_spec(st.memo@, c);
            let q = choose|q: int| 0 <= q < st.memo@.len() && st.memo@[q] == (c, memo_get(st.memo@, c)->0);
            assert(keys[q] == c);
        }
        assert(keys[0] == sid);
        assert(keys.to_set().contains(sid));
        lemma_reach_within(src, sid, n, keys.to_set());
        lemma_memo_fits(st, src, base, sid);
        assert(keys.no_duplicates()) by {
            assert forall|i: int, j: int| 0 <= i < keys.len() && 0 <= j < keys.len() && i != j implies keys[i] != keys[j] by {
                if i < j {
                    assert(st.memo@[i].0 != st.memo@[j].0);
                } else {
                    assert(st.memo@[j].0 != st.memo@[i].0);
                }
            }
        }
        keys.unique_seq_to_set();
        assert forall|y: Id| keys.to_set().contains(y) implies closure(src, sid).contains(y) by {
            let i = choose|i: int| 0 <= i < keys.len() && keys[i] == y;
            assert(keys[i] == st.memo@[i].0);
            lemma_memo_reach(st.memo@, src, i);
            lemma_reach_mono(src, sid, i as nat, n);
        }
        assert(keys.to_set() =~= closure(src, sid));
    }
}

/// One inlining step hands out exactly the ids its use's copy takes.
proof fn lemma_step_count(
    kb: Crate,
    ob: Seq<(Id, Seq<Seq<char>>)>,
    nb: nat,
    t: UseTarget,
    refs: Seq<(String, Crate)>,
    k1: Crate,
    o1: Seq<(Id, Seq<Seq<char>>)>,
    n1: nat,
)
    requires
        inline_step(kb, ob, nb, t, refs, k1, o1, n1),
    ensures
        n1 == nb + copy_count(refs, t),
{
    if let Some(src) = ref_of(refs, t.1) {
        if let Some(sid) = path_target(src.paths@, t.2) {
            let st = choose|st: Copier| #[trigger] copy_done(st, src, sid, nb as int) && n1 == nb + st.memo@.len()
                && o1 == ob + origins_for(st.memo@, src) && k1.index@ == if src_has(src, sid) {
                repointed(kb.index@ + st.added@, t.0, st.memo@[0].1)
            } else {
                kb.index@
            };
            lemma_copy_is_closure(st, src, sid, nb as int);
        }
    }
}

/// The ids handed out over a trace number exactly the items copied.
proof fn lemma_trace_count(
    k0: Crate,
    ts: Seq<UseTarget>,
    refs: Seq<(String, Crate)>,
    ks: Seq<Crate>,
    oss: Seq<Seq<(Id, Seq<Seq<char>>)>>,
    ns: Seq<nat>,
    m: int,
)
    requires
        inline_trace(k0, seq![], free_id(k0), ts, refs, ks, oss, ns),
        0 <= m <= ts.len(),
    ensures
        ns[m] + copies_total(refs, ts.skip(m)) == free_id(k0) + copies_total(refs, ts),
    decreases m,
{
    if m > 0 {
        lemma_trace_count(k0, ts, refs, ks, oss, ns, m - 1);
        let i = m - 1;
        assert(inline_step(ks[i], oss[i], ns[i], ts[i], refs, ks[i + 1], oss[i + 1], ns[i + 1]));
        lemma_step_count(ks[i], oss[i], ns[i], ts[i], refs, ks[i + 1], oss[i + 1], ns[i + 1]);
        assert(ts.skip(i).drop_first() =~= ts.skip(m));
        assert(ts.skip(i)[0] == ts[i]);
    } else {
        assert(ts.skip(0) =~= ts);
    }
}

/// One inlining step keeps the frame and the origins within it.
proof fn lemma_step_frame(
    k0: Crate,
    kb: Crate,
    ob: Seq<(Id, Seq<Seq<char>>)>,
    nb: nat,
    t: UseTarget,
    refs: Seq<(String, Crate)>,
    k1: Crate,
    o1: Seq<(Id, Seq<Seq<char>>)>,
    n1: nat,
    lo: nat,
)
    requires
        inline_frame(k0, kb, lo, nb),
        origins_within(ob, lo, nb),
        origins_indexed(ob, k0.index@.len(), kb),
        lo <= nb,
        inline_step(kb, ob, nb, t, refs, k1, o1, n1),
    ensures
        inline_frame(k0, k1, lo, n1),
        origins_within(o1, lo, n1),
        origins_indexed(o1, k0.index@.len(), k1),
        nb <= n1,
{
    if ref_of(refs, t.1) is None || path_target(ref_of(refs, t.1)->0.paths@, t.2) is None {
        lemma_indexed_same(ob, k0.index@.len(), kb, k1);
    }
    if let Some(src) = ref_of(refs, t.1) {
        if let Some(sid) = path_target(src.paths@, t.2) {
            let st = choose|st: Copier| #[trigger] copy_done(st, src, sid, nb as int) && n1 == nb + st.memo@.len()
                && o1 == ob + origins_for(st.memo@, src) && k1.index@ == if src_has(src, sid) {
                repointed(kb.index@ + st.added@, t.0, st.memo@[0].1)
            } else {
                kb.index@
            };
            let base = nb as int;
            assert forall|j: int| 0 <= j < st.added@.len() implies nb <= (#[trigger] st.added@[j]).id.0 < n1 by {
                assert(added_ok(st, src, base, j));
            }
            assert forall|i: int| 0 <= i < st.memo@.len() implies lo <= (#[trigger] st.memo@[i]).1.0 < n1 by {}
            lemma_origins_for_within(st.memo@, src, lo, n1);
            assert forall|i: int| 0 <= i < o1.len() implies lo <= (#[trigger] o1[i]).0.0 < n1 by {
                if i < ob.len() {
                    assert(o1[i] == ob[i]);
                } else {
                    assert(o1[i] == origins_for(st.memo@, src)[i - ob.len()]);
                }
            }
            lemma_origins_for_keys(st.memo@, src);
            lemma_copy_done_covers(st, src, sid, base);
            if !src_has(src, sid) {
                assert(st.memo@.len() == 0);
                assert(o1 =~= ob);
                lemma_indexed_same(ob, k0.index@.len(), kb, k1);
            }
            if src_has(src, sid) {
                let ap = kb.index@ + st.added@;
                let nid = st.memo@[0].1;
                assert(nid.0 == base);
                lemma_item_pos(ap, t.0);
                assert forall|q: int| 0 <= q < ap.len() implies (#[trigger] k1.index@[q]).id == ap[q].id by {}
                assert forall|i: int| 0 <= i < o1.len() implies indexed_after(k1, k0.index@.len(), (#[trigger] o1[i]).0) by {
                    if i < ob.len() {
                        assert(o1[i] == ob[i]);
                        assert(indexed_after(kb, k0.index@.len(), ob[i].0));
                        let p = choose|p: int| k0.index@.len() <= p < kb.index@.len() && (#[trigger] kb.index@[p]).id == ob[i].0;
                        assert(ap[p] == kb.index@[p]);
                        assert(k1.index@[p].id == o1[i].0);
                    } else {
                        let oi = origins_for(st.memo@, src)[i - ob.len()];
                        assert(o1[i] == oi);
                        assert(memo_new(st.memo@, oi.0));
                        let mj = choose|j: int| 0 <= j < st.memo@.len() && (#[trigger] st.memo@[j]).1 == oi.0;
                        let aj = choose|j: int| 0 <= j < st.added@.len() && #[trigger] st.added@[j].id == st.memo@[mj].1;
                        let p = kb.index@.len() + aj;
                        assert(ap[p] == st.added@[aj]);
                        assert(k1.index@[p].id == o1[i].0);
                    }
                }
                assert(inline_frame(k0, Crate { index: k1.index, ..kb }, lo, n1)) by {
                    lemma_item_pos(ap, t.0);
                    assert forall|i: int| 0 <= i < k0.index@.len() implies #[trigger] kept(
                        k0.index@[i],
                        k1.index@[i],
                        lo,
                    ) by {
                        assert(ap[i] == kb.index@[i]);
                        assert(kept(k0.index@[i], kb.index@[i], lo));
                        match item_pos(ap, t.0) {
                            Some(p) => {
                                if p == i {
                                    if let ItemEnum::Use(u) = ap[p].inner {
                                        let a = k0.index@[i];
                                        let b = k1.index@[i];
                                        if kb.index@[i] == a {
                                            assert(pointed(a, u, nid) == b);
                                        } else {
                                            if let ItemEnum::Use(u0) = a.inner {
                                                let x = choose|x: Id| x.0 >= lo && #[trigger] pointed(a, u0, x) == kb.index@[i];
                                                assert(pointed(a, u0, nid) == b);
                                            }
                                        }
                                    }
                                }
                            },
                            None => {},
                        }
                    }
                    assert forall|i: int| k0.index@.len() <= i < k1.index@.len() implies lo <= (
                    #[trigger] k1.index@[i]).id.0 < n1 by {
                        assert(k1.index@[i].id == ap[i].id);
                        if i >= kb.index@.len() {
                            assert(ap[i] == st.added@[i - kb.index@.len()]);
                        }
                    }
                    assert forall|i: int, j: int|
                        k0.index@.len() <= i < j < k1.index@.len() implies #[trigger] k1.index@[i].id
                        != #[trigger] k1.index@[j].id by {
                        assert(k1.index@[i].id == ap[i].id && k1.index@[j].id == ap[j].id);
                        if j >= kb.index@.len() {
                            assert(ap[j] == st.added@[j - kb.index@.len()]);
                            if i >= kb.index@.len() {
                                assert(ap[i] == st.added@[i - kb.index@.len()]);
                            }
                        }
                    }
                }
            }
        }
    }
}

/// The frame of a whole trace.
proof fn lemma_trace_frame(
    k0: Crate,
    ts: Seq<UseTarget>,
    refs: Seq<(String, Crate)>,
    ks: Seq<Crate>,
    oss: Seq<Seq<(Id, Seq<Seq<char>>)>>,
    ns: Seq<nat>,
    m: int,
)
    requires
        inline_trace(k0, seq![], free_id(k0), ts, refs, ks, oss, ns),
        0 <= m <= ts.len(),
    ensures
        inline_frame(k0, ks[m], free_id(k0), ns[m]),
        origins_within(oss[m], free_id(k0), ns[m]),
        origins_indexed(oss[m], k0.index@.len(), ks[m]),
        free_id(k0) <= ns[m],
    decreases m,
{
    if m > 0 {
        lemma_trace_frame(k0, ts, refs, ks, oss, ns, m - 1);
        let i = m - 1;
        assert(inline_step(ks[i], oss[i], ns[i], ts[i], refs, ks[i + 1], oss[i + 1], ns[i + 1]));
        assert(i + 1 == m);
        lemma_step_frame(k0, ks[m - 1], oss[m - 1], ns[m - 1], ts[m - 1], refs, ks[m], oss[m], ns[m], free_id(k0));
    } else {
        assert forall|i: int| 0 <= i < k0.index@.len() implies #[trigger] kept(k0.index@[i], ks[0].index@[i], free_id(k0)) by {}
        assert(oss[0].len() == 0);
    }
}

/// No two items of the index share an id.
pub open spec fn index_unique(k: Crate) -> bool {
    forall|i: int, j: int| 0 <= i < j < k.index@.len() ==> #[trigger] k.index@[i].id != #[trigger] k.index@[j].id
}

/// `a` is a `use` whose target the crate `k0` does not hold.
pub open spec fn missing_use(k0: Crate, a: Item) -> bool {
    match a.inner {
        ItemEnum::Use(u) => match u.id {
            Some(t) => lookup(k0.index@, t) is None,
            None => false,
        },
        _ => false,
    }
}

/// Every old item of `k0` is unchanged in `k`, but for `use`s whose target
/// `k0` does not hold.
pub open spec fn only_missing_changed(k0: Crate, k: Crate) -> bool {
    forall|i: int| 0 <= i < k0.index@.len() ==> #[trigger] k.index@[i] == k0.index@[i] || missing_use(k0, k0.index@[i])
}

/// Some item of `k0` is the cross-crate use `t`.
pub open spec fn use_of_crate(k0: Crate, refs: Seq<(String, Crate)>, t: UseTarget) -> bool {
    exists|q: int| 0 <= q < k0.index@.len() && cross_use_of(k0, refs, #[trigger] k0.index@[q]) == Some(t)
}

proof fn lemma_sort_uses_from(s: Seq<UseTarget>, i: int)
    requires
        0 <= i < sort_uses(s).len(),
    ensures
        s.contains(sort_uses(s)[i]),
    decreases s.len(),
{
    lemma_sort_uses_len(s);
    if s.len() > 0 {
        let d = s.drop_last();
        let r = sort_uses(d);
        let p = use_insert_at(r, s.last());
        lemma_use_insert_bound(r, s.last());
        lemma_sort_uses_len(d);
        r.insert_ensures(p, s.last());
        if i == p {
            assert(s[s.len() - 1] == s.last());
        } else {
            let j = if i < p {
                i
            } else {
                i - 1
            };
            assert(sort_uses(s)[i] == r[j]);
            lemma_sort_uses_from(d, j);
            let k = choose|k: int| 0 <= k < d.len() && d[k] == r[j];
            assert(s[k] == d[k]);
        }
    }
}

proof fn lemma_cross_uses_from(k0: Crate, refs: Seq<(String, Crate)>, items: Seq<Item>, i: int)
    requires
        0 <= i < cross_uses(k0, refs, items).len(),
    ensures
        exists|q: int| 0 <= q < items.len() && cross_use_of(k0, refs, #[trigger] items[q]) == Some(cross_uses(k0, refs, items)[i]),
    decreases items.len(),
{
    let d = items.drop_last();
    let r = cross_uses(k0, refs, d);
    if i < r.len() {
        lemma_cross_uses_from(k0, refs, d, i);
        let q = choose|q: int| 0 <= q < d.len() && cross_use_of(k0, refs, #[trigger] d[q]) == Some(r[i]);
        assert(items[q] == d[q]);
        match cross_use_of(k0, refs, items.last()) {
            Some(u) => assert(cross_uses(k0, refs, items)[i] == r[i]),
            None => {},
        }
    } else {
        assert(items[items.len() - 1] == items.last());
    }
}

proof fn lemma_step_missing(
    k0: Crate,
    kb: Crate,
    ob: Seq<(Id, Seq<Seq<char>>)>,
    nb: nat,
    t: UseTarget,
    refs: Seq<(String, Crate)>,
    k1: Crate,
    o1: Seq<(Id, Seq<Seq<char>>)>,
    n1: nat,
)
    requires
        index_unique(k0),
        inline_frame(k0, kb, free_id(k0), nb),
        only_missing_changed(k0, kb),
        use_of_crate(k0, refs, t),
        inline_step(kb, ob, nb, t, refs, k1, o1, n1),
    ensures
        only_missing_changed(k0, k1),
{
    if let Some(src) = ref_of(refs, t.1) {
        if let Some(sid) = path_target(src.paths@, t.2) {
            let st = choose|st: Copier| #[trigger] copy_done(st, src, sid, nb as int) && n1 == nb + st.memo@.len()
                && o1 == ob + origins_for(st.memo@, src) && k1.index@ == if src_has(src, sid) {
                repointed(kb.index@ + st.added@, t.0, st.memo@[0].1)
            } else {
                kb.index@
            };
            if src_has(src, sid) {
                let ap = kb.index@ + st.added@;
                let q = choose|q: int| 0 <= q < k0.index@.len() && cross_use_of(k0, refs, #[trigger] k0.index@[q]) == Some(t);
                lemma_item_pos(ap, t.0);
                assert forall|i: int| 0 <= i < k0.index@.len() implies #[trigger] k1.index@[i] == k0.index@[i]
                    || missing_use(k0, k0.index@[i]) by {
                    assert(ap[i] == kb.index@[i]);
                    assert(kb.index@[i] == k0.index@[i] || missing_use(k0, k0.index@[i]));
                    if let Some(p) = item_pos(ap, t.0) {
                        if p == i {
                            assert(kept(k0.index@[i], kb.index@[i], free_id(k0)));
                            assert(kb.index@[i].id == k0.index@[i].id);
                            assert(k0.index@[q].id == t.0);
                            if i != q {
                                if i < q {
                                    assert(k0.index@[i].id != k0.index@[q].id);
                                } else {
                                    assert(k0.index@[q].id != k0.index@[i].id);
                                }
                            }
                            assert(missing_use(k0, k0.index@[q]));
                        }
                    }
                }
            }
        }
    }
}

/// The old items that a whole trace changes are `use`s whose target the
/// crate does not hold.
proof fn lemma_trace_missing(
    k0: Crate,
    ts: Seq<UseTarget>,
    refs: Seq<(String, Crate)>,
    ks: Seq<Crate>,
    oss: Seq<Seq<(Id, Seq<Seq<char>>)>>,
    ns: Seq<nat>,
    m: int,
)
    requires
        index_unique(k0),
        inline_trace(k0, seq![], free_id(k0), ts, refs, ks, oss, ns),
        forall|i: int| 0 <= i < ts.len() ==> use_of_crate(k0, refs, #[trigger] ts[i]),
        0 <= m <= ts.len(),
    ensures
        only_missing_changed(k0, ks[m]),
    decreases m,
{
    if m > 0 {
        lemma_trace_missing(k0, ts, refs, ks, oss, ns, m - 1);
        lemma_trace_frame(k0, ts, refs, ks, oss, ns, m - 1);
        let i = m - 1;
        assert(inline_step(ks[i], oss[i], ns[i], ts[i], refs, ks[i + 1], oss[i + 1], ns[i + 1]));
        assert(i + 1 == m);
        lemma_step_missing(k0, ks[m - 1], oss[m - 1], ns[m - 1], ts[m - 1], refs, ks[m], oss[m], ns[m]);
    }
}

/// What inlining leaves alone and what it adds, over the crate it started
/// from: the root, paths, external crates and format version are unchanged;
/// every old item stays in its place, but for a `use` pointed at a new item,
/// and where ids were unique only a `use` whose target the crate lacked is
/// pointed anew; the added items have distinct ids above every id the crate
/// used in its index and paths; every
/// recorded origin belongs to such a new id; the ids handed out number exactly
/// the items copied; ids that were unique stay unique.
pub proof fn law_inline_frame(
    k0: Crate,
    refs: Seq<(String, Crate)>,
    ks: Seq<Crate>,
    oss: Seq<Seq<(Id, Seq<Seq<char>>)>>,
    ns: Seq<nat>,
)
    requires
        inline_trace(k0, seq![], free_id(k0), sort_uses(cross_uses(k0, refs, k0.index@)), refs, ks, oss, ns),
    ensures
        inline_frame(k0, ks.last(), free_id(k0), ns.last()),
        origins_within(oss.last(), free_id(k0), ns.last()),
        origins_indexed(oss.last(), k0.index@.len(), ks.last()),
        ns.last() == free_id(k0) + copies_total(refs, sort_uses(cross_uses(k0, refs, k0.index@))),
        forall|i: int| 0 <= i < k0.index@.len() ==> (#[trigger] k0.index@[i]).id.0 < free_id(k0),
        forall|i: int| 0 <= i < k0.paths@.len() ==> (#[trigger] k0.paths@[i]).0.0 < free_id(k0),
        index_unique(k0) ==> index_unique(ks.last()),
        index_unique(k0) ==> only_missing_changed(k0, ks.last()),
{
    let ts = sort_uses(cross_uses(k0, refs, k0.index@));
    if index_unique(k0) {
        assert forall|i: int| 0 <= i < ts.len() implies use_of_crate(k0, refs, #[trigger] ts[i]) by {
            lemma_sort_uses_from(cross_uses(k0, refs, k0.index@), i);
            let c = cross_uses(k0, refs, k0.index@);
            let j = choose|j: int| 0 <= j < c.len() && c[j] == ts[i];
            lemma_cross_uses_from(k0, refs, k0.index@, j);
        }
        lemma_trace_missing(k0, ts, refs, ks, oss, ns, ts.len() as int);
        assert(ks.last() == ks[ts.len() as int]);
    }
    lemma_trace_frame(k0, ts, refs, ks, oss, ns, ts.len() as int);
    lemma_trace_count(k0, ts, refs, ks, oss, ns, ts.len() as int);
    assert(ts.skip(ts.len() as int) =~= Seq::<UseTarget>::empty());
    assert(ns.last() == ns[ts.len() as int]);
    let k = ks.last();
    assert(ks.last() == ks[ts.len() as int]);
    lemma_max_id_bound(index_ids(k0.index@));
    assert forall|i: int| 0 <= i < k0.index@.len() implies (#[trigger] k0.index@[i]).id.0 < free_id(k0) by {
        assert(index_ids(k0.index@)[i] == k0.index@[i].id);
    }
    lemma_max_id_bound(path_ids(k0.paths@));
    assert forall|i: int| 0 <= i < k0.paths@.len() implies (#[trigger] k0.paths@[i]).0.0 < free_id(k0) by {
        assert(path_ids(k0.paths@)[i] == k0.paths@[i].0);
    }
    if index_unique(k0) {
        assert forall|i: int, j: int| 0 <= i < j < k.index@.len() implies #[trigger] k.index@[i].id
            != #[trigger] k.index@[j].id by {
            if j < k0.index@.len() {
                assert(kept(k0.index@[i], k.index@[i], free_id(k0)));
                assert(kept(k0.index@[j], k.index@[j], free_id(k0)));
                assert(k.index@[i].id == k0.index@[i].id);
                assert(k.index@[j].id == k0.index@[j].id);
            } else if i < k0.index@.len() {
                assert(kept(k0.index@[i], k.index@[i], free_id(k0)));
                assert(k.index@[i].id == k0.index@[i].id);
            }
        }
    }
}

proof fn lemma_max_id_bound(ids: Seq<Id>)
    ensures
        forall|i: int| 0 <= i < ids.len() ==> (#[trigger] ids[i]).0 <= max_id(ids),
    decreases ids.len(),
{
    if ids.len() > 0 {
        lemma_max_id_bound(ids.drop_last());
        assert forall|i: int| 0 <= i < ids.len() implies (#[trigger] ids[i]).0 <= max_id(ids) by {
            if i < ids.len() - 1 {
                assert(ids[i] == ids.drop_last()[i]);
            }
        }
    }
}

/// Points the `use` item `use_item` (its first item) at `new_id`.
fn repoint(index: &mut Vec<Item>, use_item: Id, new_id: Id)
    ensures
        final(index)@ == repointed(old(index)@, use_item, new_id),
{
    let mut i: usize = 0;
    assert(index@.skip(0) =~= index@);
    while i < index.len()
        invariant
            i <= index@.len(),
            index@ == old(index)@,
            item_pos(index@, use_item) == match item_pos(index@.skip(i as int), use_item) {
                Some(k) => Some(k + i),
                None => None,
            },
        decreases index@.len() - i,
    {
        assert(index@.skip(i as int)[0] == index@[i as int]);
        if index[i].id == use_item {
            let mut tmp = Item {
                id: Id(0),
                crate_id: 0,
                name: None,
                span: None,
                visibility: crate::model::rustdoc::Visibility::Public,
                docs: None,
                links: Vec::new(),
                inner: ItemEnum::ExternType,
            };
            index.set_and_swap(i, &mut tmp);
            let Item { id, crate_id, name, span, visibility, docs, links, inner } = tmp;
            let ghost was = old(index)@[i as int];
            let is_use = match &inner {
                ItemEnum::Use(_) => true,
                _ => false,
            };
            let inner = match inner {
                ItemEnum::Use(u) => ItemEnum::Use(Use { id: Some(new_id), ..u }),
                other => other,
            };
            let mut item = Item { id, crate_id, name, span, visibility, docs, links, inner };
            index.set_and_swap(i, &mut item);
            proof {
                if is_use {
                    assert(index@ =~= repointed(old(index)@, use_item, new_id));
                } else {
                    assert(index@ =~= old(index)@);
                }
            }
            return;
        }
        assert(index@.skip(i as int).drop_first() =~= index@.skip(i + 1));
        i += 1;
    }
}

/// Inline every cross-crate reexport in `primary` that targets one of the named
/// `references` crates. Returns the origin (dependency-side path) of every
/// inlined item that is itself addressable, so the renderer can annotate it.
pub fn inline_reexports(primary: &mut Crate, references: &Vec<(String, Crate)>) -> (r: Vec<(Id, ReexportOrigin)>)
    requires
        id_room(*old(primary), references@),
    ensures
        references@.len() == 0 ==> *final(primary) == *old(primary) && r@.len() == 0,
        references@.len() > 0 ==> exists|ks: Seq<Crate>, oss: Seq<Seq<(Id, Seq<Seq<char>>)>>, ns: Seq<nat>|
            #![trigger inline_trace(*old(primary), seq![], free_id(*old(primary)), sort_uses(cross_uses(*old(primary), references@, old(primary).index@)), references@, ks, oss, ns)]
            {
                &&& inline_trace(
                    *old(primary),
                    seq![],
                    free_id(*old(primary)),
                    sort_uses(cross_uses(*old(primary), references@, old(primary).index@)),
                    references@,
                    ks,
                    oss,
                    ns,
                )
                &&& ks.last() == *final(primary)
                &&& oss.last() == origins_view(r@)
            },
        exists|hi: nat|
            inline_frame(*old(primary), *final(primary), free_id(*old(primary)), hi) && origins_within(
                origins_view(r@),
                free_id(*old(primary)),
                hi,
            ),
        origins_indexed(origins_view(r@), old(primary).index@.len(), *final(primary)),
        index_unique(*old(primary)) ==> index_unique(*final(primary)),
{
    let mut origins: Vec<(Id, ReexportOrigin)> = Vec::new();
    if references.len() == 0 {
        proof {
            let k0 = *primary;
            assert forall|i: int| 0 <= i < k0.index@.len() implies #[trigger] kept(k0.index@[i], k0.index@[i], free_id(k0)) by {}
            assert(inline_frame(k0, k0, free_id(k0), free_id(k0)));
            assert(origins_view(origins@) =~= Seq::<(Id, Seq<Seq<char>>)>::empty());
            assert(origins_within(origins_view(origins@), free_id(k0), free_id(k0)));
            assert(inline_frame(k0, *primary, free_id(k0), free_id(k0)) && origins_within(
                origins_view(origins@),
                free_id(k0),
                free_id(k0),
            ));
        }
        return origins;
    }
    let ghost k0 = *primary;
    let targets = collect_cross_crate_uses(primary, references);
    let ghost ts = sort_uses(cross_uses(k0, references@, k0.index@));
    proof {
        lemma_sort_uses_len(cross_uses(k0, references@, k0.index@));
        assert(targets@.map_values(|u: CrossCrateUse| use_view(u)).len() == targets@.len());
        assert(ts.skip(0) =~= ts);
    }
    let mut next_id = next_free_id(primary) as u32;
    let mut t: usize = 0;
    assert(origins_view(origins@) =~= Seq::<(Id, Seq<Seq<char>>)>::empty());
    let ghost mut ks: Seq<Crate> = seq![k0];
    let ghost mut oss: Seq<Seq<(Id, Seq<Seq<char>>)>> = seq![seq![]];
    let ghost mut ns: Seq<nat> = seq![free_id(k0)];
    while t < targets.len()
        invariant
            t <= targets@.len(),
            targets@.map_values(|u: CrossCrateUse| use_view(u)) == ts,
            next_id + copies_total(references@, ts.skip(t as int)) <= u32::MAX,
            inline_trace(k0, seq![], free_id(k0), ts.take(t as int), references@, ks, oss, ns),
            ks.last() == *primary,
            oss.last() == origins_view(origins@),
            ns.last() == next_id as nat,
        decreases targets@.len() - t,
    {
        let ghost kb = *primary;
        let ghost ob = origins_view(origins@);
        let ghost nb = next_id as nat;
        let target = &targets[t];
        assert(ts[t as int] == use_view(*target));
        assert(ts.take(t + 1).drop_last() =~= ts.take(t as int));
        assert(ts.take(t + 1).last() == use_view(*target));
        assert(ts.skip(t as int).drop_first() =~= ts.skip(t + 1));
        assert(ts.skip(t as int)[0] == ts[t as int]);
        assert(copies_total(references@, ts.skip(t as int)) == copy_count(references@, ts[t as int])
            + copies_total(references@, ts.skip(t + 1)));
        let src = match find_ref(references, target.crate_name.as_str()) {
            Some(c) => c,
            None => {
                assert(inline_step(kb, ob, nb, use_view(*target), references@, *primary, origins_view(origins@), next_id as nat));
                proof {
                    lemma_trace_extend(k0, ts, t as int, references@, ks, oss, ns, *primary, origins_view(origins@), next_id as nat);
                    ks = ks.push(*primary);
                    oss = oss.push(origins_view(origins@));
                    ns = ns.push(next_id as nat);
                }
                t += 1;
                continue;
            },
        };
        let src_id = match reverse_path(src, &target.path) {
            Some(x) => x,
            None => {
                assert(inline_step(kb, ob, nb, use_view(*target), references@, *primary, origins_view(origins@), next_id as nat));
                proof {
                    lemma_trace_extend(k0, ts, t as int, references@, ks, oss, ns, *primary, origins_view(origins@), next_id as nat);
                    ks = ks.push(*primary);
                    oss = oss.push(origins_view(origins@));
                    ns = ns.push(next_id as nat);
                }
                t += 1;
                continue;
            },
        };
        assert(copy_count(references@, ts[t as int]) == closure(*src, src_id).len());
        let mut st = Copier { memo: Vec::new(), next_id, origins: Vec::new(), added: Vec::new() };
        let ghost st0 = st;
        let ghost base = next_id as int;
        assert(copier_wf(st0, *src, base));
        proof {
            lemma_memo_get_spec(st0.memo@, src_id);
        }
        let res = copy_item(src, src_id, &mut st, Ghost(base), Ghost(src_id), Ghost(src.index@.len()));
        let ghost stf = st;
        proof {
            lemma_memo_fits(stf, *src, base, src_id);
            assert(stf.memo@.skip(0) =~= stf.memo@);
            assert(origins_view(stf.origins@) =~= origins_for(stf.memo@, *src));
            if !src_has(*src, src_id) {
                assert(stf.memo@.len() == 0);
            }
            assert(memo_keys(st0.memo@) =~= Seq::<Id>::empty());
            assert(copy_done(stf, *src, src_id, base));
        }
        next_id = st.next_id;
        let ghost o_before = origins@;
        origins.append(&mut st.origins);
        assert(origins_view(origins@) =~= ob + origins_for(stf.memo@, *src));
        primary.index.append(&mut st.added);
        let ghost appended = primary.index@;
        assert(appended == kb.index@ + stf.added@);
        if let Some(new_id) = res {
            repoint(&mut primary.index, target.use_item, new_id);
        }
        proof {
            assert(inline_step(kb, ob, nb, use_view(*target), references@, *primary, origins_view(origins@), next_id as nat));
            lemma_trace_extend(k0, ts, t as int, references@, ks, oss, ns, *primary, origins_view(origins@), next_id as nat);
            ks = ks.push(*primary);
            oss = oss.push(origins_view(origins@));
            ns = ns.push(next_id as nat);
        }
        t += 1;
    }
    assert(ts.take(targets@.len() as int) =~= ts);
    assert(inline_trace(k0, seq![], free_id(k0), ts, references@, ks, oss, ns));
    proof {
        law_inline_frame(k0, references@, ks, oss, ns);
    }
    origins
}

} // verus!
