//! Orders used by the renderers: lists of (name, optional link) entries kept
//! sorted and free of repeats, and stable sorts of items by name.

use vstd::prelude::*;

use crate::model::rustdoc::Item;
use crate::model::DocItem;
use crate::text::{copy_str, lemma_seq_lt_asym, lemma_seq_lt_irrefl, lemma_seq_lt_total, lemma_seq_lt_trans, seq_lt, str_lt};

verus! {

// ---------------------------------------------------------------------------
// Entries: sorted, without repeats

/// A name with an optional link.
pub type Entry = (Seq<char>, Option<Seq<char>>);

/// The order of `Option<String>`: `None` first, then by text.
pub open spec fn opt_lt(a: Option<Seq<char>>, b: Option<Seq<char>>) -> bool {
    match (a, b) {
        (None, Some(_)) => true,
        (Some(x), Some(y)) => seq_lt(x, y),
        _ => false,
    }
}

/// The order of `(String, Option<String>)`: by name, then by link.
pub open spec fn entry_lt(a: Entry, b: Entry) -> bool {
    seq_lt(a.0, b.0) || (a.0 == b.0 && opt_lt(a.1, b.1))
}

/// Whether the entries strictly increase.
pub open spec fn entries_increasing(r: Seq<Entry>) -> bool {
    forall|i: int, j: int| 0 <= i < j < r.len() ==> entry_lt(r[i], r[j])
}

/// The entries of `s`, sorted, each once: what sorting then removing
/// repeats gives.
pub open spec fn sorted_distinct(s: Seq<Entry>) -> Seq<Entry> {
    choose|r: Seq<Entry>| entries_increasing(r) && (forall|x: Entry| r.contains(x) <==> s.contains(x))
}

/// The view of an exec entry.
pub open spec fn entry_view(e: (String, Option<String>)) -> Entry {
    (
        e.0@,
        match e.1 {
            Some(l) => Some(l@),
            None => None,
        },
    )
}

/// The view of a list of exec entries.
pub open spec fn entries_view(v: Seq<(String, Option<String>)>) -> Seq<Entry> {
    v.map_values(|e: (String, Option<String>)| entry_view(e))
}

proof fn lemma_opt_lt(a: Option<Seq<char>>, b: Option<Seq<char>>, c: Option<Seq<char>>)
    ensures
        !opt_lt(a, a),
        opt_lt(a, b) && opt_lt(b, c) ==> opt_lt(a, c),
        a != b ==> opt_lt(a, b) || opt_lt(b, a),
{
    if let Some(x) = a {
        lemma_seq_lt_irrefl(x);
        if let Some(y) = b {
            lemma_seq_lt_total(x, y);
            if let Some(z) = c {
                if seq_lt(x, y) && seq_lt(y, z) {
                    lemma_seq_lt_trans(x, y, z);
                }
            }
        }
    }
}

/// `entry_lt` is a strict total order.
pub proof fn lemma_entry_order(a: Entry, b: Entry, c: Entry)
    ensures
        !entry_lt(a, a),
        entry_lt(a, b) && entry_lt(b, c) ==> entry_lt(a, c),
        a != b ==> entry_lt(a, b) || entry_lt(b, a),
{
    lemma_seq_lt_irrefl(a.0);
    lemma_opt_lt(a.1, b.1, c.1);
    lemma_seq_lt_total(a.0, b.0);
    if seq_lt(a.0, b.0) && seq_lt(b.0, c.0) {
        lemma_seq_lt_trans(a.0, b.0, c.0);
    }
    if seq_lt(a.0, b.0) && seq_lt(b.0, a.0) {
        lemma_seq_lt_asym(a.0, b.0);
    }
}

/// Two strictly increasing sequences with the same elements are equal.
pub proof fn lemma_sorted_unique(r1: Seq<Entry>, r2: Seq<Entry>)
    requires
        entries_increasing(r1),
        entries_increasing(r2),
        forall|x: Entry| r1.contains(x) <==> r2.contains(x),
    ensures
        r1 == r2,
    decreases r1.len(),
{
    if r1.len() == 0 {
        if r2.len() > 0 {
            assert(r2.contains(r2[0]));
        }
        assert(r1 =~= r2);
    } else {
        assert(r1.contains(r1[0]));
        let j = choose|j: int| 0 <= j < r2.len() && r2[j] == r1[0];
        assert(r2.contains(r2[0]));
        let i = choose|i: int| 0 <= i < r1.len() && r1[i] == r2[0];
        if i > 0 {
            if j > 0 {
                lemma_entry_order(r1[0], r1[i], r2[j]);
                lemma_entry_order(r1[0], r1[0], r1[0]);
            } else {
                lemma_entry_order(r1[0], r1[i], r1[0]);
            }
        }
        assert(r1[0] == r2[0]);
        let t1 = r1.drop_first();
        let t2 = r2.drop_first();
        assert forall|x: Entry| t1.contains(x) <==> t2.contains(x) by {
            if t1.contains(x) {
                let a = choose|a: int| 0 <= a < t1.len() && t1[a] == x;
                assert(r1[a + 1] == x);
                assert(r2.contains(x));
                let b = choose|b: int| 0 <= b < r2.len() && r2[b] == x;
                if b == 0 {
                    lemma_entry_order(r1[0], r1[0], r1[0]);
                }
                assert(t2[b - 1] == x);
            }
            if t2.contains(x) {
                let a = choose|a: int| 0 <= a < t2.len() && t2[a] == x;
                assert(r2[a + 1] == x);
                assert(r1.contains(x));
                let b = choose|b: int| 0 <= b < r1.len() && r1[b] == x;
                if b == 0 {
                    lemma_entry_order(r2[0], r2[0], r2[0]);
                }
                assert(t1[b - 1] == x);
            }
        }
        lemma_sorted_unique(t1, t2);
        assert(r1 =~= seq![r1[0]] + t1);
        assert(r2 =~= seq![r2[0]] + t2);
    }
}

/// A strictly increasing list with the elements of `s` is `sorted_distinct(s)`.
pub proof fn lemma_sorted_distinct(r: Seq<Entry>, s: Seq<Entry>)
    requires
        entries_increasing(r),
        forall|x: Entry| r.contains(x) <==> s.contains(x),
    ensures
        sorted_distinct(s) == r,
{
    let c = sorted_distinct(s);
    assert(entries_increasing(c) && (forall|x: Entry| c.contains(x) <==> s.contains(x)));
    lemma_sorted_unique(c, r);
}

/// Whether optional text `a` sorts strictly before `b`.
fn opt_less(a: &Option<String>, b: &Option<String>) -> (r: bool)
    ensures
        r == opt_lt(
            match a {
                Some(x) => Some(x@),
                None => None,
            },
            match b {
                Some(x) => Some(x@),
                None => None,
            },
        ),
{
    match (a, b) {
        (None, Some(_)) => true,
        (Some(x), Some(y)) => str_lt(x.as_str(), y.as_str()),
        _ => false,
    }
}

/// Whether entry `a` sorts strictly before entry `b`.
fn entry_less(a: &(String, Option<String>), b: &(String, Option<String>)) -> (r: bool)
    ensures
        r == entry_lt(entry_view(*a), entry_view(*b)),
{
    if str_lt(a.0.as_str(), b.0.as_str()) {
        true
    } else if crate::text::str_eq(a.0.as_str(), b.0.as_str()) {
        opt_less(&a.1, &b.1)
    } else {
        false
    }
}

/// Adds `e` to a strictly increasing list unless it is already there.
pub fn insert_entry(list: &mut Vec<(String, Option<String>)>, e: (String, Option<String>))
    requires
        entries_increasing(entries_view(old(list)@)),
    ensures
        entries_increasing(entries_view(final(list)@)),
        forall|x: Entry| entries_view(final(list)@).contains(x) <==> (entries_view(old(list)@).contains(x) || x == entry_view(e)),
{
    let ghost v0 = entries_view(list@);
    let ghost ev = entry_view(e);
    let mut pos: usize = 0;
    while pos < list.len() && entry_less(&list[pos], &e)
        invariant
            pos <= list@.len(),
            v0 == entries_view(list@),
            ev == entry_view(e),
            forall|j: int| 0 <= j < pos ==> entry_lt(#[trigger] v0[j], ev),
        decreases list@.len() - pos,
    {
        assert(v0[pos as int] == entry_view(list@[pos as int]));
        pos += 1;
    }
    if pos < list.len() && !entry_less(&e, &list[pos]) {
        // Neither is smaller: `e` is already there.
        proof {
            assert(v0[pos as int] == entry_view(list@[pos as int]));
            lemma_entry_order(ev, v0[pos as int], ev);
            assert(v0[pos as int] == ev);
        }
        return;
    }
    proof {
        if pos < list@.len() {
            assert(v0[pos as int] == entry_view(list@[pos as int]));
        }
    }
    list.insert(pos, e);
    let ghost v1 = entries_view(list@);
    assert(v1 =~= v0.insert(pos as int, ev));
    assert forall|i: int, j: int| 0 <= i < j < v1.len() implies entry_lt(v1[i], v1[j]) by {
        if j < pos {
            assert(v1[i] == v0[i] && v1[j] == v0[j]);
        } else if j == pos {
            assert(v1[i] == v0[i]);
        } else if i < pos {
            assert(v1[i] == v0[i] && v1[j] == v0[j - 1]);
            lemma_entry_order(v0[i], ev, v0[pos as int]);
            if j - 1 > pos {
                lemma_entry_order(v0[i], v0[pos as int], v0[j - 1]);
            }
        } else if i == pos {
            assert(v1[j] == v0[j - 1]);
            if j - 1 > pos {
                lemma_entry_order(ev, v0[pos as int], v0[j - 1]);
            }
        } else {
            assert(v1[i] == v0[i - 1] && v1[j] == v0[j - 1]);
        }
    }
    assert forall|x: Entry| v1.contains(x) <==> (v0.contains(x) || x == ev) by {
        if v1.contains(x) {
            let k = choose|k: int| 0 <= k < v1.len() && v1[k] == x;
            if k < pos {
                assert(v0[k] == x);
            } else if k > pos {
                assert(v0[k - 1] == x);
            }
        }
        if v0.contains(x) {
            let k = choose|k: int| 0 <= k < v0.len() && v0[k] == x;
            if k < pos {
                assert(v1[k] == x);
            } else {
                assert(v1[k + 1] == x);
            }
        }
        if x == ev {
            assert(v1[pos as int] == x);
        }
    }
}

// ---------------------------------------------------------------------------
// Stable sorting by name

/// A sort key (a name, or none) with the position it came from.
pub type Keyed = (Option<Seq<char>>, int);

/// Where a stable insertion puts `x` into `r`: before the first element whose
/// key is greater than `x`'s.
pub open spec fn insert_at(r: Seq<Keyed>, x: Keyed) -> int
    decreases r.len(),
{
    if r.len() == 0 {
        0
    } else if opt_lt(x.0, r[0].0) {
        0
    } else {
        1 + insert_at(r.drop_first(), x)
    }
}

/// Stable sort by key: elements with equal keys keep their order.
pub open spec fn stable_sort(s: Seq<Keyed>) -> Seq<Keyed>
    decreases s.len(),
{
    if s.len() == 0 {
        s
    } else {
        let r = stable_sort(s.drop_last());
        r.insert(insert_at(r, s.last()), s.last())
    }
}

/// The view of an exec keyed element.
pub open spec fn keyed_view(v: Seq<(Option<String>, usize)>) -> Seq<Keyed> {
    v.map_values(
        |e: (Option<String>, usize)|
            (
                match e.0 {
                    Some(n) => Some(n@),
                    None => None,
                },
                e.1 as int,
            ),
    )
}

proof fn lemma_insert_at_bound(r: Seq<Keyed>, x: Keyed)
    ensures
        0 <= insert_at(r, x) <= r.len(),
    decreases r.len(),
{
    if r.len() > 0 && !opt_lt(x.0, r[0].0) {
        lemma_insert_at_bound(r.drop_first(), x);
    }
}

proof fn lemma_insert_at_scan(r: Seq<Keyed>, x: Keyed, p: int)
    requires
        0 <= p <= r.len(),
        forall|j: int| 0 <= j < p ==> !opt_lt(x.0, #[trigger] r[j].0),
        p == r.len() || opt_lt(x.0, r[p].0),
    ensures
        insert_at(r, x) == p,
    decreases p,
{
    if p > 0 {
        assert(!opt_lt(x.0, r[0].0));
        assert forall|j: int| 0 <= j < p - 1 implies !opt_lt(x.0, #[trigger] r.drop_first()[j].0) by {
            assert(r.drop_first()[j] == r[j + 1]);
        }
        lemma_insert_at_scan(r.drop_first(), x, p - 1);
    }
}

/// Sorts keyed positions by key, stably.
pub fn sort_keyed(v: Vec<(Option<String>, usize)>) -> (r: Vec<(Option<String>, usize)>)
    ensures
        keyed_view(r@) == stable_sort(keyed_view(v@)),
{
    let ghost s = keyed_view(v@);
    let mut out: Vec<(Option<String>, usize)> = Vec::new();
    let mut i: usize = 0;
    let n = v.len();
    let mut v = v;
    assert(keyed_view(out@) =~= stable_sort(s.take(0)));
    while i < n
        invariant
            n == v@.len(),
            i <= n,
            s == keyed_view(v@),
            keyed_view(out@) == stable_sort(s.take(i as int)),
        decreases n - i,
    {
        let ghost r0 = keyed_view(out@);
        let ghost x = s[i as int];
        let mut pos: usize = 0;
        while pos < out.len() && !opt_less(&v[i].0, &out[pos].0)
            invariant
                pos <= out@.len(),
                r0 == keyed_view(out@),
                i < v@.len(),
                s == keyed_view(v@),
                x == s[i as int],
                forall|j: int| 0 <= j < pos ==> !opt_lt(x.0, #[trigger] r0[j].0),
            decreases out@.len() - pos,
        {
            assert(r0[pos as int] == keyed_view(out@)[pos as int]);
            pos += 1;
        }
        proof {
            if pos < out@.len() {
                assert(r0[pos as int] == keyed_view(out@)[pos as int]);
            }
            lemma_insert_at_scan(r0, x, pos as int);
            assert(s.take(i + 1).drop_last() =~= s.take(i as int));
            assert(s.take(i + 1).last() == x);
        }
        let key = match &v[i].0 {
            Some(k) => Some(copy_str(k.as_str())),
            None => None,
        };
        out.insert(pos, (key, v[i].1));
        assert(keyed_view(out@) =~= r0.insert(pos as int, x));
        i += 1;
    }
    assert(s.take(n as int) =~= s);
    out
}


/// Stable sorting keeps the length and only moves elements.
pub proof fn lemma_stable_sort_perm(s: Seq<Keyed>)
    ensures
        stable_sort(s).len() == s.len(),
        forall|i: int| 0 <= i < s.len() ==> s.contains(#[trigger] stable_sort(s)[i]),
    decreases s.len(),
{
    if s.len() > 0 {
        let p = s.drop_last();
        lemma_stable_sort_perm(p);
        let r = stable_sort(p);
        lemma_insert_at_bound(r, s.last());
        let k = insert_at(r, s.last());
        let r2 = r.insert(k, s.last());
        assert forall|i: int| 0 <= i < s.len() implies s.contains(#[trigger] r2[i]) by {
            if i < k {
                assert(r2[i] == r[i]);
                let j = choose|j: int| 0 <= j < p.len() && p[j] == r[i];
                assert(s[j] == p[j]);
            } else if i == k {
                assert(s[s.len() - 1] == r2[i]);
            } else {
                assert(r2[i] == r[i - 1]);
                let j = choose|j: int| 0 <= j < p.len() && p[j] == r[i - 1];
                assert(s[j] == p[j]);
            }
        }
    }
}

/// The optional name of an item, as text.
pub open spec fn opt_name(n: Option<String>) -> Option<Seq<char>> {
    match n {
        Some(s) => Some(s@),
        None => None,
    }
}

/// Each item's name with its position.
pub open spec fn name_keys(items: Seq<Item>) -> Seq<Keyed> {
    Seq::new(items.len(), |k: int| (opt_name(items[k].name), k))
}

/// Items stably sorted by name (unnamed first).
pub open spec fn by_name(items: Seq<Item>) -> Seq<Item> {
    stable_sort(name_keys(items)).map_values(|e: Keyed| items[e.1])
}

/// Each documented item's name with its position.
pub open spec fn doc_keys(items: Seq<DocItem>) -> Seq<Keyed> {
    Seq::new(items.len(), |k: int| (Some(items[k].name@), k))
}

/// Documented items stably sorted by name.
pub open spec fn docs_by_name(items: Seq<DocItem>) -> Seq<DocItem> {
    stable_sort(doc_keys(items)).map_values(|e: Keyed| items[e.1])
}

/// The items a list of references points to.
pub open spec fn deref_items(v: Seq<&Item>) -> Seq<Item> {
    v.map_values(|r: &Item| *r)
}

/// The documented items a list of references points to.
pub open spec fn deref_docs(v: Seq<&DocItem>) -> Seq<DocItem> {
    v.map_values(|r: &DocItem| *r)
}

/// Sorts items stably by name.
pub fn sort_items_by_name<'b>(items: Vec<&'b Item>) -> (r: Vec<&'b Item>)
    ensures
        deref_items(r@) == by_name(deref_items(items@)),
{
    let ghost iv = deref_items(items@);
    let mut keys: Vec<(Option<String>, usize)> = Vec::new();
    let mut i: usize = 0;
    while i < items.len()
        invariant
            i <= items@.len(),
            iv == deref_items(items@),
            keyed_view(keys@) == name_keys(iv).take(i as int),
        decreases items@.len() - i,
    {
        assert(iv[i as int] == *items@[i as int]);
        let key = match &items[i].name {
            Some(n) => Some(copy_str(n.as_str())),
            None => None,
        };
        let ghost before = keyed_view(keys@);
        keys.push((key, i));
        assert(keyed_view(keys@) =~= before.push((opt_name(iv[i as int].name), i as int)));
        assert(name_keys(iv).take(i + 1) =~= name_keys(iv).take(i as int).push(name_keys(iv)[i as int]));
        i += 1;
    }
    assert(name_keys(iv).take(iv.len() as int) =~= name_keys(iv));
    let sorted = sort_keyed(keys);
    let ghost sv = stable_sort(name_keys(iv));
    proof {
        lemma_stable_sort_perm(name_keys(iv));
    }
    let mut out: Vec<&'b Item> = Vec::new();
    let mut j: usize = 0;
    while j < sorted.len()
        invariant
            j <= sorted@.len(),
            keyed_view(sorted@) == sv,
            sv == stable_sort(name_keys(iv)),
            sv.len() == iv.len(),
            forall|a: int| 0 <= a < iv.len() ==> name_keys(iv).contains(#[trigger] sv[a]),
            iv == deref_items(items@),
            deref_items(out@) == by_name(iv).take(j as int),
        decreases sorted@.len() - j,
    {
        let k = sorted[j].1;
        assert(sv[j as int].1 == k as int);
        assert(name_keys(iv).contains(sv[j as int]));
        assert(k < items@.len());
        assert(by_name(iv)[j as int] == iv[k as int]);
        assert(iv[k as int] == *items@[k as int]);
        let ghost before = deref_items(out@);
        out.push(items[k]);
        assert(deref_items(out@) =~= before.push(iv[k as int]));
        assert(by_name(iv).take(j + 1) =~= by_name(iv).take(j as int).push(by_name(iv)[j as int]));
        j += 1;
    }
    assert(by_name(iv).take(sv.len() as int) =~= by_name(iv));
    out
}

/// Sorts documented items stably by name.
pub fn sort_docs_by_name<'b>(items: Vec<&'b DocItem>) -> (r: Vec<&'b DocItem>)
    ensures
        deref_docs(r@) == docs_by_name(deref_docs(items@)),
{
    let ghost iv = deref_docs(items@);
    let mut keys: Vec<(Option<String>, usize)> = Vec::new();
    let mut i: usize = 0;
    while i < items.len()
        invariant
            i <= items@.len(),
            iv == deref_docs(items@),
            keyed_view(keys@) == doc_keys(iv).take(i as int),
        decreases items@.len() - i,
    {
        assert(iv[i as int] == *items@[i as int]);
        let ghost before = keyed_view(keys@);
        keys.push((Some(copy_str(items[i].name.as_str())), i));
        assert(keyed_view(keys@) =~= before.push((Some(iv[i as int].name@), i as int)));
        assert(doc_keys(iv).take(i + 1) =~= doc_keys(iv).take(i as int).push(doc_keys(iv)[i as int]));
        i += 1;
    }
    assert(doc_keys(iv).take(iv.len() as int) =~= doc_keys(iv));
    let sorted = sort_keyed(keys);
    let ghost sv = stable_sort(doc_keys(iv));
    proof {
        lemma_stable_sort_perm(doc_keys(iv));
    }
    let mut out: Vec<&'b DocItem> = Vec::new();
    let mut j: usize = 0;
    while j < sorted.len()
        invariant
            j <= sorted@.len(),
            keyed_view(sorted@) == sv,
            sv == stable_sort(doc_keys(iv)),
            sv.len() == iv.len(),
            forall|a: int| 0 <= a < iv.len() ==> doc_keys(iv).contains(#[trigger] sv[a]),
            iv == deref_docs(items@),
            deref_docs(out@) == docs_by_name(iv).take(j as int),
        decreases sorted@.len() - j,
    {
        let k = sorted[j].1;
        assert(sv[j as int].1 == k as int);
        assert(doc_keys(iv).contains(sv[j as int]));
        assert(k < items@.len());
        assert(docs_by_name(iv)[j as int] == iv[k as int]);
        assert(iv[k as int] == *items@[k as int]);
        let ghost before = deref_docs(out@);
        out.push(items[k]);
        assert(deref_docs(out@) =~= before.push(iv[k as int]));
        assert(docs_by_name(iv).take(j + 1) =~= docs_by_name(iv).take(j as int).push(docs_by_name(iv)[j as int]));
        j += 1;
    }
    assert(docs_by_name(iv).take(sv.len() as int) =~= docs_by_name(iv));
    out
}


// ---------------------------------------------------------------------------
// Laws of the stable sort

/// Whether keyed elements are in key order.
pub open spec fn keyed_sorted(s: Seq<Keyed>) -> bool {
    forall|i: int, j: int| 0 <= i < j < s.len() ==> !opt_lt(s[j].0, s[i].0)
}

proof fn lemma_insert_at_props(r: Seq<Keyed>, x: Keyed)
    ensures
        0 <= insert_at(r, x) <= r.len(),
        forall|j: int| 0 <= j < insert_at(r, x) ==> !opt_lt(x.0, #[trigger] r[j].0),
        insert_at(r, x) < r.len() ==> opt_lt(x.0, r[insert_at(r, x)].0),
    decreases r.len(),
{
    if r.len() > 0 && !opt_lt(x.0, r[0].0) {
        lemma_insert_at_props(r.drop_first(), x);
        assert forall|j: int| 0 <= j < insert_at(r, x) implies !opt_lt(x.0, #[trigger] r[j].0) by {
            if j > 0 {
                assert(r[j] == r.drop_first()[j - 1]);
            }
        }
    }
}

/// A stable sort by key puts its elements in key order, keeps their number,
/// and only moves them.
pub proof fn law_stable_sort_sorted(s: Seq<Keyed>)
    ensures
        keyed_sorted(stable_sort(s)),
        stable_sort(s).len() == s.len(),
        forall|i: int| 0 <= i < s.len() ==> s.contains(#[trigger] stable_sort(s)[i]),
    decreases s.len(),
{
    lemma_stable_sort_perm(s);
    if s.len() > 0 {
        let r = stable_sort(s.drop_last());
        let x = s.last();
        law_stable_sort_sorted(s.drop_last());
        lemma_insert_at_props(r, x);
        let p = insert_at(r, x);
        let r2 = r.insert(p, x);
        assert forall|i: int, j: int| 0 <= i < j < r2.len() implies !opt_lt(r2[j].0, r2[i].0) by {
            if j < p {
                assert(r2[i] == r[i] && r2[j] == r[j]);
            } else if j == p {
                assert(r2[i] == r[i]);
            } else if i < p {
                assert(r2[i] == r[i] && r2[j] == r[j - 1]);
            } else if i == p {
                assert(r2[j] == r[j - 1]);
                if opt_lt(r[j - 1].0, x.0) {
                    lemma_opt_lt(r[j - 1].0, x.0, r[p].0);
                    if j - 1 > p {
                        lemma_opt_lt(r[p].0, r[j - 1].0, r[p].0);
                        lemma_opt_lt(r[j - 1].0, r[p].0, r[j - 1].0);
                    } else {
                        lemma_opt_lt(r[p].0, r[p].0, r[p].0);
                    }
                }
            } else {
                assert(r2[i] == r[i - 1] && r2[j] == r[j - 1]);
            }
        }
    }
}

/// Items sorted by name are in name order and are the same items, each
/// taken from the list.
pub proof fn law_by_name_sorted(items: Seq<Item>)
    ensures
        by_name(items).len() == items.len(),
        forall|i: int, j: int| 0 <= i < j < items.len() ==> !opt_lt(
            opt_name((#[trigger] by_name(items)[j]).name),
            opt_name((#[trigger] by_name(items)[i]).name),
        ),
        forall|i: int| 0 <= i < items.len() ==> items.contains(#[trigger] by_name(items)[i]),
{
    let keys = name_keys(items);
    law_stable_sort_sorted(keys);
    let sv = stable_sort(keys);
    assert forall|i: int| 0 <= i < items.len() implies 0 <= #[trigger] sv[i].1 < items.len() && sv[i].0 == opt_name(
        items[sv[i].1].name,
    ) by {
        let k = choose|k: int| 0 <= k < keys.len() && keys[k] == sv[i];
    }
    assert forall|i: int, j: int| 0 <= i < j < items.len() implies !opt_lt(
        opt_name((#[trigger] by_name(items)[j]).name),
        opt_name((#[trigger] by_name(items)[i]).name),
    ) by {
        assert(0 <= sv[i].1 < items.len() && 0 <= sv[j].1 < items.len());
    }
    assert forall|i: int| 0 <= i < items.len() implies items.contains(#[trigger] by_name(items)[i]) by {
        assert(0 <= sv[i].1 < items.len());
        assert(items[sv[i].1] == by_name(items)[i]);
    }
}

/// Documented items sorted by name are in name order and are the same
/// items, each taken from the list.
pub proof fn law_docs_by_name_sorted(items: Seq<DocItem>)
    ensures
        docs_by_name(items).len() == items.len(),
        forall|i: int, j: int| 0 <= i < j < items.len() ==> !seq_lt(
            (#[trigger] docs_by_name(items)[j]).name@,
            (#[trigger] docs_by_name(items)[i]).name@,
        ),
        forall|i: int| 0 <= i < items.len() ==> items.contains(#[trigger] docs_by_name(items)[i]),
{
    let keys = doc_keys(items);
    law_stable_sort_sorted(keys);
    let sv = stable_sort(keys);
    assert forall|i: int| 0 <= i < items.len() implies 0 <= #[trigger] sv[i].1 < items.len() && sv[i].0 == Some(
        items[sv[i].1].name@,
    ) by {
        let k = choose|k: int| 0 <= k < keys.len() && keys[k] == sv[i];
    }
    assert forall|i: int, j: int| 0 <= i < j < items.len() implies !seq_lt(
        (#[trigger] docs_by_name(items)[j]).name@,
        (#[trigger] docs_by_name(items)[i]).name@,
    ) by {
        assert(0 <= sv[i].1 < items.len() && 0 <= sv[j].1 < items.len());
        assert(!opt_lt(sv[j].0, sv[i].0));
    }
    assert forall|i: int| 0 <= i < items.len() implies items.contains(#[trigger] docs_by_name(items)[i]) by {
        assert(0 <= sv[i].1 < items.len());
        assert(items[sv[i].1] == docs_by_name(items)[i]);
    }
}

} // verus!
