//! Turn discovered paths into placed [`DocItem`]s: choose each item's canonical
//! path, assign output files, and disambiguate the rare case-insensitive file
//! collision.

use vstd::prelude::*;

use crate::model::reachability::{disc_view, paths_view};
use crate::model::rustdoc::{lookup, Crate, Id};
use crate::model::{
    kind_of, lemma_path_precedes_order, owns_file, path_module, path_name, path_precedes, DocItem,
    DocKind, ItemPath,
};
use crate::render::links::{lowercase, to_lowercase};
use crate::text::{copy_str, join, join_strings, last_index_of, push_char, push_str, texts};

verus! {

// ---------------------------------------------------------------------------
// Canonical order

/// Whether `s` is in canonical order (no element precedes an earlier one).
pub open spec fn paths_sorted(s: Seq<Seq<Seq<char>>>) -> bool {
    forall|i: int, j: int| 0 <= i < j < s.len() ==> !path_precedes(#[trigger] s[j], #[trigger] s[i])
}

/// Sorts paths into canonical order: shortest first, then lexicographic.
pub fn sort_paths(paths: Vec<ItemPath>) -> (r: Vec<ItemPath>)
    ensures
        paths_sorted(paths_view(r@)),
        paths_view(r@).to_multiset() == paths_view(paths@).to_multiset(),
{
    broadcast use vstd::seq_lib::group_to_multiset_ensures;

    let ghost input = paths_view(paths@);
    let mut rest = paths;
    let mut out: Vec<ItemPath> = Vec::new();
    assert(paths_view(out@) =~= Seq::<Seq<Seq<char>>>::empty());
    while rest.len() > 0
        invariant
            paths_sorted(paths_view(out@)),
            paths_view(out@).to_multiset().add(paths_view(rest@).to_multiset()) == input.to_multiset(),
        decreases rest@.len(),
    {
        let ghost rest0 = paths_view(rest@);
        let ghost out0 = paths_view(out@);
        let e = rest.pop().unwrap();
        let ghost ev = e@;
        assert(rest0 =~= paths_view(rest@).push(ev));
        // First position whose path `e` precedes.
        let mut pos: usize = 0;
        while pos < out.len() && !e.precedes(&out[pos])
            invariant
                pos <= out@.len(),
                out0 == paths_view(out@),
                ev == e@,
                forall|j: int| 0 <= j < pos ==> !path_precedes(ev, #[trigger] out0[j]),
            decreases out@.len() - pos,
        {
            assert(out0[pos as int] == out@[pos as int]@);
            pos += 1;
        }
        out.insert(pos, e);
        let ghost out1 = paths_view(out@);
        assert(out1 =~= out0.insert(pos as int, ev));
        assert forall|i: int, j: int| 0 <= i < j < out1.len() implies !path_precedes(
            #[trigger] out1[j],
            #[trigger] out1[i],
        ) by {
            if j < pos {
                assert(out1[i] == out0[i] && out1[j] == out0[j]);
            } else if j == pos {
                assert(out1[i] == out0[i]);
                lemma_path_precedes_order(ev, out0[i], ev);
            } else if i < pos {
                assert(out1[i] == out0[i] && out1[j] == out0[j - 1]);
                if pos < out0.len() {
                    // out0[i] does not follow ev, and ev precedes out0[pos]
                    lemma_path_precedes_order(out0[j - 1], out0[i], ev);
                    lemma_path_precedes_order(out0[i], ev, out0[pos as int]);
                    lemma_path_precedes_order(out0[j - 1], out0[i], out0[pos as int]);
                    lemma_path_precedes_order(ev, out0[pos as int], out0[j - 1]);
                    if path_precedes(out0[j - 1], out0[i]) {
                        if ev == out0[i] {
                        } else {
                            lemma_path_precedes_order(out0[i], ev, out0[i]);
                            lemma_path_precedes_order(ev, out0[i], out0[j - 1]);
                            lemma_path_precedes_order(out0[j - 1], out0[i], out0[j - 1]);
                            lemma_path_precedes_order(out0[j - 1], ev, out0[pos as int]);
                            lemma_path_precedes_order(out0[pos as int], out0[j - 1], ev);
                        }
                    }
                }
            } else if i == pos {
                assert(out1[j] == out0[j - 1]);
                assert(path_precedes(ev, out0[pos as int]));
                if path_precedes(out0[j - 1], ev) {
                    lemma_path_precedes_order(out0[j - 1], ev, out0[pos as int]);
                    lemma_path_precedes_order(out0[j - 1], out0[pos as int], out0[j - 1]);
                }
            } else {
                assert(out1[i] == out0[i - 1] && out1[j] == out0[j - 1]);
            }
        }
        proof {
            assert(out1.remove(pos as int) =~= out0);
            assert(out1[pos as int] == ev);
            assert(out1.to_multiset() =~= out0.to_multiset().insert(ev)) by {
                out1.to_multiset_ensures();
                assert(out1.remove(pos as int).to_multiset() == out1.to_multiset().remove(ev));
                assert(out1.contains(ev));
                assert(out1.to_multiset().count(ev) > 0);
            }
            vstd::seq_lib::to_multiset_build(paths_view(rest@), ev);
            assert(out1.to_multiset().add(paths_view(rest@).to_multiset()) =~= out0.to_multiset().add(
                rest0.to_multiset(),
            ));
        }
    }
    assert(paths_view(rest@) =~= Seq::<Seq<Seq<char>>>::empty());
    assert(paths_view(out@).to_multiset().add(paths_view(rest@).to_multiset()) =~= paths_view(
        out@,
    ).to_multiset());
    out
}


// ---------------------------------------------------------------------------
// Output files

/// The natural output file of an item, before collision handling: the crate
/// root is `<name>/lib.md`, any other module `<path>/mod.md`, and a type or
/// trait `<module path>/<Name>.md`; segments are joined with `/`.
pub open spec fn base_file(kind: DocKind, p: Seq<Seq<char>>) -> Seq<char> {
    if kind == DocKind::Module {
        if p.len() == 1 {
            join(seq![p[0], "lib.md"@], "/"@)
        } else {
            join(p.push("mod.md"@), "/"@)
        }
    } else {
        join(path_module(p).push(path_name(p) + ".md"@), "/"@)
    }
}

/// The decimal digit for `d < 10`.
pub open spec fn digit_char(d: nat) -> char {
    if d == 0 {
        '0'
    } else if d == 1 {
        '1'
    } else if d == 2 {
        '2'
    } else if d == 3 {
        '3'
    } else if d == 4 {
        '4'
    } else if d == 5 {
        '5'
    } else if d == 6 {
        '6'
    } else if d == 7 {
        '7'
    } else if d == 8 {
        '8'
    } else {
        '9'
    }
}

/// The decimal representation of `n`, without leading zeros.
pub open spec fn decimal(n: nat) -> Seq<char>
    decreases n,
{
    if n < 10 {
        seq![digit_char(n)]
    } else {
        decimal(n / 10).push(digit_char(n % 10))
    }
}

/// The directory part of a `/`-separated path (empty if it has none).
pub open spec fn parent_of(s: Seq<char>) -> Seq<char> {
    match last_index_of(s, '/') {
        Some(i) => s.take(i),
        None => seq![],
    }
}

/// The file-name part of a `/`-separated path.
pub open spec fn file_part(s: Seq<char>) -> Seq<char> {
    match last_index_of(s, '/') {
        Some(i) => s.skip(i + 1),
        None => s,
    }
}

/// A file name without its three-character `.md` extension (a name that is
/// only the extension keeps it, as a hidden file would).
pub open spec fn md_stem(f: Seq<char>) -> Seq<char> {
    if f.len() > 3 {
        f.take(f.len() - 3)
    } else {
        f
    }
}

/// `path` with `-n` inserted before its `.md` extension.
pub open spec fn numbered(path: Seq<char>, n: nat) -> Seq<char> {
    let name = md_stem(file_part(path)) + "-"@ + decimal(n) + ".md"@;
    if parent_of(path).len() == 0 {
        name
    } else {
        parent_of(path) + "/"@ + name
    }
}

/// One step of collision handling. `used` counts, per case-folded file name,
/// how often it has been taken. A path whose folded name is free is kept;
/// the `n`-th taker of a name gets `numbered(path, n)`, whose folded name is
/// then marked taken as well.
pub open spec fn dedup_step(used: Map<Seq<char>, nat>, path: Seq<char>) -> (Map<Seq<char>, nat>, Seq<char>) {
    let key = lowercase(path);
    let c: nat = if used.contains_key(key) {
        used[key] + 1
    } else {
        1
    };
    let u1 = used.insert(key, c);
    if c == 1 {
        (u1, path)
    } else {
        let num = numbered(path, c);
        let nk = lowercase(num);
        (
            if u1.contains_key(nk) {
                u1
            } else {
                u1.insert(nk, 1)
            },
            num,
        )
    }
}

/// Files for a sequence of natural files (`None` for items without a file of
/// their own), handled in order, with the final table of taken names.
pub open spec fn assigned(bases: Seq<Option<Seq<char>>>) -> (Map<Seq<char>, nat>, Seq<Option<Seq<char>>>)
    decreases bases.len(),
{
    if bases.len() == 0 {
        (Map::empty(), seq![])
    } else {
        let (u, fs) = assigned(bases.drop_last());
        match bases.last() {
            None => (u, fs.push(None)),
            Some(b) => {
                let (u2, f) = dedup_step(u, b);
                (u2, fs.push(Some(f)))
            },
        }
    }
}

/// The table of taken names, viewed as a map.
pub open spec fn used_map(v: Seq<(String, usize)>) -> Map<Seq<char>, nat> {
    Map::new(
        |k: Seq<char>| exists|i: int| 0 <= i < v.len() && v[i].0@ == k,
        |k: Seq<char>| v[choose|i: int| 0 <= i < v.len() && v[i].0@ == k].1 as nat,
    )
}

/// No name occurs twice in the table.
pub open spec fn keys_unique(v: Seq<(String, usize)>) -> bool {
    forall|i: int, j: int| 0 <= i < j < v.len() ==> v[i].0@ != v[j].0@
}

/// Every count in the table is at most `n`.
pub open spec fn counts_at_most(v: Seq<(String, usize)>, n: nat) -> bool {
    forall|i: int| 0 <= i < v.len() ==> (#[trigger] v[i]).1 <= n
}

/// Appends the decimal representation of `n`.
pub fn push_decimal(out: &mut String, n: usize)
    ensures
        final(out)@ == old(out)@ + decimal(n as nat),
    decreases n,
{
    if n >= 10 {
        push_decimal(out, n / 10);
    }
    let d = n % 10;
    let c = if d == 0 {
        '0'
    } else if d == 1 {
        '1'
    } else if d == 2 {
        '2'
    } else if d == 3 {
        '3'
    } else if d == 4 {
        '4'
    } else if d == 5 {
        '5'
    } else if d == 6 {
        '6'
    } else if d == 7 {
        '7'
    } else if d == 8 {
        '8'
    } else {
        '9'
    };
    push_char(out, c);
    if n < 10 {
        assert(out@ =~= old(out)@ + decimal(n as nat));
    } else {
        assert(out@ =~= old(out)@ + decimal(n as nat));
    }
}

/// The natural output path for an item before collision handling.
fn base_file_path(kind: DocKind, path: &ItemPath) -> (r: String)
    ensures
        r@ == base_file(kind, path@),
{
    let mut segs: Vec<String> = Vec::new();
    if kind == DocKind::Module {
        // The crate root (a single-segment path) is `lib.md`; every other
        // module is a `mod.md` inside its own directory.
        if path.0.len() == 1 {
            crate::text::push_text(&mut segs, copy_str(path.0[0].as_str()));
            crate::text::push_text(&mut segs, copy_str("lib.md"));
            assert(texts(segs@) =~= seq![path@[0], "lib.md"@]);
        } else {
            segs = crate::model::reachability::copy_path(&path.0);
            crate::text::push_text(&mut segs, copy_str("mod.md"));
        }
    } else {
        // Types and traits live as `<Name>.md` inside their module's directory.
        let n = path.0.len();
        let m = if n == 0 {
            0
        } else {
            n - 1
        };
        let mut i: usize = 0;
        while i < m
            invariant
                i <= m,
                m <= path.0@.len(),
                m == path_module(path@).len(),
                texts(segs@) == path_module(path@).take(i as int),
            decreases m - i,
        {
            crate::text::push_text(&mut segs, copy_str(path.0[i].as_str()));
            assert(path_module(path@).take(i + 1) =~= path_module(path@).take(i as int).push(
                path_module(path@)[i as int],
            ));
            i += 1;
        }
        assert(path_module(path@).take(m as int) =~= path_module(path@));
        let mut file = copy_str(path.name());
        push_str(&mut file, ".md");
        crate::text::push_text(&mut segs, file);
    }
    join_strings(&segs, "/")
}


/// `path` with `-n` inserted before its `.md` extension.
pub fn numbered_path(path: &str, n: usize) -> (r: String)
    ensures
        r@ == numbered(path@, n as nat),
{
    let cs = crate::text::chars_of(path);
    let len = cs.len();
    let (mut out, lo) = match crate::text::find_last(cs.as_slice(), '/') {
        Some(i) => {
            assert(i < len);
            let mut o = crate::text::range_string(cs.as_slice(), 0, i);
            if i > 0 {
                push_char(&mut o, '/');
            }
            (o, i + 1)
        },
        None => (String::new(), 0),
    };
    let ghost parent = parent_of(path@);
    let ghost file = file_part(path@);
    assert(file =~= path@.subrange(lo as int, path@.len() as int));
    let hi = if len - lo > 3 {
        len - 3
    } else {
        len
    };
    assert(md_stem(file) =~= path@.subrange(lo as int, hi as int));
    crate::text::push_range(&mut out, cs.as_slice(), lo, hi);
    push_char(&mut out, '-');
    push_decimal(&mut out, n);
    push_str(&mut out, ".md");
    proof {
        reveal_strlit("-");
        reveal_strlit("/");
        if parent.len() == 0 {
            assert(out@ =~= numbered(path@, n as nat));
        } else {
            assert(out@ =~= numbered(path@, n as nat));
        }
    }
    out
}

/// Position of `key` in the table of taken names.
fn find_key(used: &Vec<(String, usize)>, key: &str) -> (r: Option<usize>)
    ensures
        r matches Some(i) ==> i < used@.len() && used@[i as int].0@ == key@,
        r is None ==> forall|j: int| 0 <= j < used@.len() ==> used@[j].0@ != key@,
{
    let mut i: usize = 0;
    while i < used.len()
        invariant
            i <= used@.len(),
            forall|j: int| 0 <= j < i ==> used@[j].0@ != key@,
        decreases used@.len() - i,
    {
        if crate::text::str_eq(used[i].0.as_str(), key) {
            return Some(i);
        }
        i += 1;
    }
    None
}

/// Appending a name absent from the table gives the table's map with the
/// name added.
proof fn lemma_used_push(v: Seq<(String, usize)>, e: (String, usize))
    requires
        keys_unique(v),
        forall|j: int| 0 <= j < v.len() ==> v[j].0@ != e.0@,
    ensures
        keys_unique(v.push(e)),
        used_map(v.push(e)) == used_map(v).insert(e.0@, e.1 as nat),
{
    let w = v.push(e);
    assert forall|k: Seq<char>| used_map(w).contains_key(k) <==> used_map(v).insert(e.0@, e.1 as nat).contains_key(k) by {
        if k != e.0@ && used_map(w).contains_key(k) {
            let i = choose|i: int| 0 <= i < w.len() && w[i].0@ == k;
            assert(v[i] == w[i]);
        }
        if used_map(v).contains_key(k) {
            let i = choose|i: int| 0 <= i < v.len() && v[i].0@ == k;
            assert(w[i] == v[i]);
        }
        if k == e.0@ {
            assert(w[v.len() as int].0@ == k);
        }
    }
    assert forall|k: Seq<char>| #[trigger] used_map(w).contains_key(k) implies used_map(w)[k] == used_map(v).insert(e.0@, e.1 as nat)[k] by {
        let i = choose|i: int| 0 <= i < w.len() && w[i].0@ == k;
        if k == e.0@ {
            assert(i == v.len());
        } else {
            let j = choose|j: int| 0 <= j < v.len() && v[j].0@ == k;
            assert(w[j] == v[j]);
            assert(i == j);
        }
    }
    assert(used_map(w) =~= used_map(v).insert(e.0@, e.1 as nat));
}

/// Replacing the count of a name in the table updates the map likewise.
proof fn lemma_used_update(v: Seq<(String, usize)>, i: int, e: (String, usize))
    requires
        keys_unique(v),
        0 <= i < v.len(),
        v[i].0@ == e.0@,
    ensures
        keys_unique(v.update(i, e)),
        used_map(v.update(i, e)) == used_map(v).insert(e.0@, e.1 as nat),
{
    let w = v.update(i, e);
    assert forall|a: int, b: int| 0 <= a < b < w.len() implies w[a].0@ != w[b].0@ by {
        assert(w[a].0@ == v[a].0@ && w[b].0@ == v[b].0@);
    }
    assert forall|k: Seq<char>| used_map(w).contains_key(k) <==> used_map(v).insert(e.0@, e.1 as nat).contains_key(k) by {
        if used_map(w).contains_key(k) {
            let j = choose|j: int| 0 <= j < w.len() && w[j].0@ == k;
            assert(v[j].0@ == w[j].0@);
        }
        if used_map(v).contains_key(k) {
            let j = choose|j: int| 0 <= j < v.len() && v[j].0@ == k;
            assert(w[j].0@ == v[j].0@);
        }
        if k == e.0@ {
            assert(w[i].0@ == k);
        }
    }
    assert forall|k: Seq<char>| #[trigger] used_map(w).contains_key(k) implies used_map(w)[k] == used_map(v).insert(e.0@, e.1 as nat)[k] by {
        let a = choose|a: int| 0 <= a < w.len() && w[a].0@ == k;
        if k == e.0@ {
            assert(w[i].0@ == k);
            assert(a == i);
        } else {
            let b = choose|b: int| 0 <= b < v.len() && v[b].0@ == k;
            assert(w[b].0@ == v[b].0@);
            assert(w[a].0@ == v[a].0@);
            assert(a == b);
        }
    }
    assert(used_map(w) =~= used_map(v).insert(e.0@, e.1 as nat));
}

/// The count of claims that the case-folded file name `key` has once one
/// more is made on the table `used`.
pub open spec fn claim_count(used: Map<Seq<char>, nat>, key: Seq<char>) -> nat {
    if used.contains_key(key) {
        used[key] + 1
    } else {
        1
    }
}

/// Records one more claim on the case-folded file name `key` in the table of
/// taken names and returns the count that the name now has: 1 for its first
/// taker, `n` for the `n`-th, whose file is then numbered `-n`.
pub fn claim_name(used: &mut Vec<(String, usize)>, key: String) -> (count: usize)
    requires
        keys_unique(old(used)@),
        forall|j: int| 0 <= j < old(used)@.len() ==> (#[trigger] old(used)@[j]).1 < usize::MAX,
    ensures
        keys_unique(final(used)@),
        count == claim_count(used_map(old(used)@), key@),
        used_map(final(used)@) == used_map(old(used)@).insert(key@, count as nat),
        forall|j: int|
            0 <= j < final(used)@.len() ==> (#[trigger] final(used)@[j]).1 == count || (j < old(used)@.len()
                && final(used)@[j] == old(used)@[j]),
{
    let ghost u0 = used_map(used@);
    let ghost kv = key@;
    let count: usize;
    match find_key(used, key.as_str()) {
        Some(i) => {
            let ghost v0 = used@;
            assert(u0.contains_key(kv) && u0[kv] == v0[i as int].1) by {
                assert(v0[i as int].0@ == kv);
                let j = choose|j: int| 0 <= j < v0.len() && v0[j].0@ == kv;
                assert(i == j);
            }
            count = used[i].1 + 1;
            proof {
                lemma_used_update(v0, i as int, (key, count));
            }
            used.set(i, (key, count));
        },
        None => {
            count = 1;
            proof {
                lemma_used_push(used@, (key, 1usize));
            }
            used.push((key, 1));
        },
    }
    count
}

/// Append `-N` before the `.md` extension if the (case-folded) path is taken.
fn deduplicate(path: String, used: &mut Vec<(String, usize)>, Ghost(n): Ghost<nat>) -> (r: String)
    requires
        keys_unique(old(used)@),
        counts_at_most(old(used)@, n),
        n < usize::MAX,
    ensures
        keys_unique(final(used)@),
        counts_at_most(final(used)@, n + 1),
        (used_map(final(used)@), r@) == dedup_step(used_map(old(used)@), path@),
{
    let ghost u0 = used_map(used@);
    let ghost v0 = used@;
    let key = to_lowercase(path.as_str());
    let ghost kv = key@;
    let count = claim_name(used, key);
    assert(count <= n + 1) by {
        if u0.contains_key(kv) {
            let j = choose|j: int| 0 <= j < v0.len() && v0[j].0@ == kv;
            assert(v0[j].1 <= n);
        }
    }
    assert forall|j: int| 0 <= j < used@.len() implies (#[trigger] used@[j]).1 <= n + 1 by {
        if j < v0.len() && used@[j] == v0[j] {
            assert(v0[j].1 <= n);
        }
    }
    if count == 1 {
        return path;
    }
    let num = numbered_path(path.as_str(), count);
    let nk = to_lowercase(num.as_str());
    if find_key(used, nk.as_str()).is_none() {
        proof {
            lemma_used_push(used@, (nk, 1usize));
        }
        used.push((nk, 1));
    }
    num
}


// ---------------------------------------------------------------------------
// Placement

/// The documentation kind of the item with id `id` (`Other` if the index
/// lacks it).
pub open spec fn item_kind(k: Crate, id: Id) -> DocKind {
    match lookup(k.index@, id) {
        Some(it) => kind_of(it.inner),
        None => DocKind::Other,
    }
}

/// The natural file of an item, if its kind has one.
pub open spec fn natural_file(kind: DocKind, p: Seq<Seq<char>>) -> Option<Seq<char>> {
    if owns_file(kind) {
        Some(base_file(kind, p))
    } else {
        None
    }
}

/// The text of an optional file.
pub open spec fn file_view(f: Option<String>) -> Option<Seq<char>> {
    match f {
        Some(s) => Some(s@),
        None => None,
    }
}

/// The canonical path followed by the alternates.
pub open spec fn placed_paths(it: DocItem) -> Seq<Seq<Seq<char>>> {
    seq![it.canonical@] + paths_view(it.alternates@)
}

/// The natural files of a sequence of items.
pub open spec fn natural_files(items: Seq<DocItem>) -> Seq<Option<Seq<char>>> {
    items.map_values(|it: DocItem| natural_file(it.kind, it.canonical@))
}

/// The assigned files of a sequence of items.
pub open spec fn files_of(items: Seq<DocItem>) -> Seq<Option<Seq<char>>> {
    items.map_values(|it: DocItem| file_view(it.file))
}

/// `it` is the placement of the discovered entry `e`: same id, the kind of
/// the indexed item, its paths in canonical order with the first as
/// canonical, and the canonical path's last segment as name.
#[verifier::opaque]
pub open spec fn placed_from(k: Crate, it: DocItem, e: (Id, Seq<Seq<Seq<char>>>)) -> bool {
    &&& it.id == e.0
    &&& it.kind == item_kind(k, e.0)
    &&& it.name@ == path_name(it.canonical@)
    &&& paths_sorted(placed_paths(it))
    &&& placed_paths(it).to_multiset() == e.1.to_multiset()
}

/// A placed item has the id of its entry.
pub proof fn lemma_placed_id(k: Crate, it: DocItem, e: (Id, Seq<Seq<Seq<char>>>))
    requires
        placed_from(k, it, e),
    ensures
        it.id == e.0,
{
    reveal(placed_from);
}

/// Assemble placed items from the raw discoveries, keeping their order.
/// Each item's paths are put in canonical order (shortest first, then
/// lexicographic) and the first becomes canonical. Files are then assigned in
/// order, numbering case-insensitive collisions.
pub fn assemble(krate: &Crate, discoveries: Vec<(Id, Vec<ItemPath>)>) -> (r: Vec<DocItem>)
    requires
        forall|i: int| 0 <= i < discoveries@.len() ==> (#[trigger] discoveries@[i]).1@.len() > 0,
    ensures
        r@.len() == discoveries@.len(),
        forall|i: int| 0 <= i < r@.len() ==> placed_from(*krate, #[trigger] r@[i], disc_view(discoveries@)[i]),
        files_of(r@) == assigned(natural_files(r@)).1,
{
    broadcast use vstd::seq_lib::group_to_multiset_ensures;

    let ghost d0 = disc_view(discoveries@);
    let n = discoveries.len();
    let mut d = discoveries;
    let mut items: Vec<DocItem> = Vec::new();
    let mut used: Vec<(String, usize)> = Vec::new();
    let mut i: usize = 0;
    assert(natural_files(items@) =~= Seq::<Option<Seq<char>>>::empty());
    assert(files_of(items@) =~= Seq::<Option<Seq<char>>>::empty());
    assert(used_map(used@) =~= Map::<Seq<char>, nat>::empty());
    while i < n
        invariant
            n == d@.len(),
            d0.len() == n,
            i <= n,
            items@.len() == i,
            forall|j: int| i <= j < n ==> disc_view(d@)[j] == d0[j] && (#[trigger] d@[j]).1@.len() > 0,
            forall|j: int| 0 <= j < i ==> placed_from(*krate, #[trigger] items@[j], d0[j]),
            keys_unique(used@),
            counts_at_most(used@, i as nat),
            used_map(used@) == assigned(natural_files(items@)).0,
            files_of(items@) == assigned(natural_files(items@)).1,
        decreases n - i,
    {
        let mut entry: (Id, Vec<ItemPath>) = (Id(0), Vec::new());
        assert(d@[i as int].1@.len() > 0);
        let ghost e0 = d@[i as int];
        let ghost dprev = d@;
        d.set_and_swap(i, &mut entry);
        assert(entry == e0);
        let ghost d1 = d@;
        assert forall|j: int| i < j < n implies disc_view(d@)[j] == d0[j] && (#[trigger] d@[j]).1@.len() > 0 by {
            assert(d@[j] == dprev[j]);
        }
        let (id, paths) = entry;
        // Shortest path wins, then lexicographic — deterministic.
        let mut sorted = sort_paths(paths);
        let ghost sv = paths_view(sorted@);
        assert(sv.len() > 0) by {
            sv.to_multiset_ensures();
            paths_view(e0.1@).to_multiset_ensures();
        }
        let canonical = sorted.remove(0);
        assert(seq![canonical@] + paths_view(sorted@) =~= sv);
        let kind = match krate.get(id) {
            Some(item) => DocKind::of(&item.inner),
            None => DocKind::Other,
        };
        let name = copy_str(canonical.name());
        let base = if kind.has_own_file() {
            let b = base_file_path(kind, &canonical);
            Some(deduplicate(b, &mut used, Ghost(i as nat)))
        } else {
            None
        };
        let item = DocItem { id, name, kind, canonical, alternates: sorted, file: base };
        let ghost before = items@;
        items.push(item);
        proof {
            reveal(placed_from);
            assert(natural_files(items@).drop_last() =~= natural_files(before));
            assert(files_of(items@).drop_last() =~= files_of(before));
            assert(natural_files(items@).last() == natural_file(item.kind, item.canonical@));
            assert(files_of(items@) =~= assigned(natural_files(items@)).1);
            assert forall|j: int| 0 <= j < i + 1 implies placed_from(*krate, #[trigger] items@[j], d0[j]) by {
                if j < i {
                    assert(items@[j] == before[j]);
                } else {
                    assert(placed_paths(items@[j]) =~= sv);
                }
            }
            assert forall|j: int| 0 <= j < used@.len() implies (#[trigger] used@[j]).1 <= i + 1 by {}
        }
        i += 1;
    }
    items
}


// ---------------------------------------------------------------------------
// Laws of placement

/// Whether entry `j` of `fs` is a file whose case-folded name is `k`.
pub open spec fn folded_at(fs: Seq<Option<Seq<char>>>, j: int, k: Seq<char>) -> bool {
    match fs[j] {
        Some(f) => lowercase(f) == k,
        None => false,
    }
}

/// Handling a prefix of the natural files gives a prefix of the files.
proof fn lemma_assigned_prefix(bases: Seq<Option<Seq<char>>>, m: int)
    requires
        0 <= m <= bases.len(),
    ensures
        assigned(bases.take(m)).1 == assigned(bases).1.take(m),
        assigned(bases).1.len() == bases.len(),
    decreases bases.len(),
{
    if bases.len() > 0 {
        lemma_assigned_prefix(bases.drop_last(), if m == bases.len() { m - 1 } else { m });
        if m == bases.len() {
            assert(bases.take(m) =~= bases);
            assert(assigned(bases).1.take(m) =~= assigned(bases).1);
        } else {
            assert(bases.drop_last().take(m) =~= bases.take(m));
            assert(assigned(bases).1.take(m) =~= assigned(bases.drop_last()).1.take(m));
        }
    } else {
        assert(bases.take(m) =~= bases);
    }
}

/// Files exist exactly where natural files do, and the table of taken names
/// holds exactly the case-folded names of the files handed out.
proof fn lemma_assigned_shape(bases: Seq<Option<Seq<char>>>)
    ensures
        assigned(bases).1.len() == bases.len(),
        forall|i: int| 0 <= i < bases.len() ==> (#[trigger] assigned(bases).1[i] is Some) == (bases[i] is Some),
        forall|k: Seq<char>| #[trigger] assigned(bases).0.contains_key(k) <==> exists|j: int|
            0 <= j < bases.len() && #[trigger] folded_at(assigned(bases).1, j, k),
        forall|k: Seq<char>| #[trigger] assigned(bases).0.contains_key(k) ==> assigned(bases).0[k] >= 1,
    decreases bases.len(),
{
    if bases.len() > 0 {
        let p = bases.drop_last();
        lemma_assigned_shape(p);
        let (u, fs) = assigned(p);
        let fs2 = assigned(bases).1;
        let u2 = assigned(bases).0;
        assert forall|j: int| 0 <= j < p.len() implies fs2[j] == fs[j] by {}
        assert forall|i: int| 0 <= i < bases.len() implies (#[trigger] fs2[i] is Some) == (bases[i] is Some) by {
            if i < p.len() {
                assert(fs2[i] == fs[i]);
                assert(bases[i] == p[i]);
            }
        }
        assert forall|k: Seq<char>| #[trigger] u2.contains_key(k) <==> exists|j: int|
            0 <= j < bases.len() && #[trigger] folded_at(fs2, j, k) by {
            if u2.contains_key(k) {
                match bases.last() {
                    None => {
                        let j = choose|j: int| 0 <= j < p.len() && #[trigger] folded_at(fs, j, k);
                        assert(folded_at(fs2, j, k));
                    },
                    Some(b) => {
                        let key = lowercase(b);
                        if u.contains_key(k) {
                            let j = choose|j: int| 0 <= j < p.len() && #[trigger] folded_at(fs, j, k);
                            assert(folded_at(fs2, j, k));
                        } else {
                            assert(folded_at(fs2, p.len() as int, k));
                        }
                    },
                }
            }
            if exists|j: int| 0 <= j < bases.len() && #[trigger] folded_at(fs2, j, k) {
                let j = choose|j: int| 0 <= j < bases.len() && #[trigger] folded_at(fs2, j, k);
                if j < p.len() {
                    assert(folded_at(fs, j, k));
                    assert(u.contains_key(k));
                }
            }
        }
    }
}

/// An item keeps its natural file when no earlier item's file has the same
/// case-folded name; otherwise it gets the natural file numbered `-n` with
/// `n >= 2`. Items without a natural file get no file, and the others one.
pub proof fn law_collision_numbering(bases: Seq<Option<Seq<char>>>, i: int)
    requires
        0 <= i < bases.len(),
    ensures
        assigned(bases).1.len() == bases.len(),
        (assigned(bases).1[i] is Some) == (bases[i] is Some),
        bases[i] matches Some(b) ==> ((forall|j: int| 0 <= j < i ==> !folded_at(assigned(bases).1, j, lowercase(b)))
            ==> assigned(bases).1[i] == Some(b)),
        bases[i] matches Some(b) ==> ((exists|j: int| 0 <= j < i && folded_at(assigned(bases).1, j, lowercase(b)))
            ==> exists|n: nat| n >= 2 && assigned(bases).1[i] == Some(#[trigger] numbered(b, n))),
{
    lemma_assigned_shape(bases);
    let q = bases.take(i + 1);
    let p = bases.take(i);
    lemma_assigned_prefix(bases, i + 1);
    lemma_assigned_prefix(bases, i);
    lemma_assigned_shape(p);
    assert(q.drop_last() =~= p);
    let (u, fs) = assigned(p);
    let all = assigned(bases).1;
    assert(all[i] == assigned(q).1[i]);
    assert forall|j: int| 0 <= j < i implies fs[j] == all[j] by {
        assert(fs[j] == all.take(i)[j]);
    }
    if let Some(b) = bases[i] {
        assert(q.last() == bases[i]);
        let key = lowercase(b);
        if forall|j: int| 0 <= j < i ==> !folded_at(all, j, key) {
            if u.contains_key(key) {
                let j = choose|j: int| 0 <= j < p.len() && #[trigger] folded_at(fs, j, key);
                assert(folded_at(all, j, key));
            }
        }
        if exists|j: int| 0 <= j < i && folded_at(all, j, key) {
            let j = choose|j: int| 0 <= j < i && folded_at(all, j, key);
            assert(folded_at(fs, j, key));
            assert(u.contains_key(key));
            let n: nat = u[key] + 1;
            assert(assigned(q).1 == fs.push(Some(dedup_step(u, b).1)));
            assert(all[i] == Some(numbered(b, n)));
        }
    }
}

/// A natural file as the model makes them: no `-` in it, not starting with
/// `/`, and a file name of more than the `.md` extension that it ends with.
pub open spec fn natural_ok(b: Seq<char>) -> bool {
    &&& !b.contains('-')
    &&& b.len() > 3
    &&& b.skip(b.len() - 3) == ".md"@
    &&& b[0] != '/'
    &&& file_part(b).len() > 3
}

proof fn lemma_last_index_of(s: Seq<char>, c: char)
    ensures
        last_index_of(s, c) matches Some(i) ==> 0 <= i < s.len() && s[i] == c,
    decreases s.len(),
{
    if s.len() > 0 && s.last() != c {
        lemma_last_index_of(s.drop_last(), c);
    }
}

proof fn lemma_decimal_digits(n: nat)
    ensures
        !decimal(n).contains('-'),
        decimal(n).len() >= 1,
        n >= 10 ==> decimal(n).len() >= 2,
    decreases n,
{
    if n >= 10 {
        lemma_decimal_digits(n / 10);
        let d = decimal(n);
        assert forall|k: int| 0 <= k < d.len() implies d[k] != '-' by {
            if k < d.len() - 1 {
                assert(d[k] == decimal(n / 10)[k]);
            }
        }
    }
}

proof fn lemma_digit_char_injective(a: nat, b: nat)
    requires
        a < 10,
        b < 10,
        digit_char(a) == digit_char(b),
    ensures
        a == b,
{
}

proof fn lemma_decimal_injective(n: nat, m: nat)
    requires
        decimal(n) == decimal(m),
    ensures
        n == m,
    decreases n,
{
    lemma_decimal_digits(n);
    lemma_decimal_digits(m);
    if n < 10 && m < 10 {
        assert(decimal(n)[0] == digit_char(n));
        assert(decimal(m)[0] == digit_char(m));
        lemma_digit_char_injective(n, m);
    } else if n >= 10 && m >= 10 {
        assert(decimal(n).drop_last() == decimal(n / 10));
        assert(decimal(m).drop_last() == decimal(m / 10));
        lemma_decimal_injective(n / 10, m / 10);
        assert(decimal(n).last() == digit_char(n % 10));
        assert(decimal(m).last() == digit_char(m % 10));
        lemma_digit_char_injective(n % 10, m % 10);
        assert(n == 10 * (n / 10) + n % 10);
        assert(m == 10 * (m / 10) + m % 10);
    }
}

/// A numbered natural file is its name without `.md`, `-n`, then `.md`.
proof fn lemma_numbered_shape(b: Seq<char>, n: nat)
    requires
        natural_ok(b),
    ensures
        numbered(b, n) == b.take(b.len() - 3) + "-"@ + decimal(n) + ".md"@,
{
    reveal_strlit("/");
    reveal_strlit(".md");
    lemma_last_index_of(b, '/');
    let t = "-"@ + decimal(n) + ".md"@;
    match last_index_of(b, '/') {
        Some(i) => {
            let file = b.skip(i + 1);
            assert(i > 0);
            assert(parent_of(b) == b.take(i));
            assert(file.take(file.len() - 3) =~= b.subrange(i + 1, b.len() - 3));
            assert(b.take(i) + "/"@ + b.subrange(i + 1, b.len() - 3) =~= b.take(b.len() - 3));
            assert(numbered(b, n) == b.take(i) + "/"@ + (file.take(file.len() - 3) + t));
            assert(b.take(i) + "/"@ + (file.take(file.len() - 3) + t) =~= b.take(b.len() - 3) + t);
        },
        None => {
            assert(numbered(b, n) == b.take(b.len() - 3) + t);
        },
    }
    assert(b.take(b.len() - 3) + "-"@ + decimal(n) + ".md"@ =~= b.take(b.len() - 3) + t);
}

/// `x-d.md` determines `x` and `d` when neither holds a `-`.
proof fn lemma_dash_split(x: Seq<char>, d: Seq<char>, y: Seq<char>, e: Seq<char>)
    requires
        !x.contains('-'),
        !y.contains('-'),
        x + "-"@ + d + ".md"@ == y + "-"@ + e + ".md"@,
    ensures
        x == y,
        d == e,
{
    reveal_strlit("-");
    reveal_strlit(".md");
    let s1 = x + "-"@ + d + ".md"@;
    let s2 = y + "-"@ + e + ".md"@;
    if x.len() < y.len() {
        assert(s1[x.len() as int] == '-');
        assert(s2[x.len() as int] == y[x.len() as int]);
        assert(y.contains(y[x.len() as int]));
    } else if y.len() < x.len() {
        assert(s2[y.len() as int] == '-');
        assert(s1[y.len() as int] == x[y.len() as int]);
        assert(x.contains(x[y.len() as int]));
    }
    assert(x =~= s1.take(x.len() as int));
    assert(y =~= s2.take(y.len() as int));
    assert(d =~= s1.subrange(x.len() + 1int, s1.len() - 3));
    assert(e =~= s2.subrange(y.len() + 1int, s2.len() - 3));
}

/// Numbered natural files are equal only for the same file and number.
proof fn lemma_numbered_injective(b: Seq<char>, n: nat, c: Seq<char>, m: nat)
    requires
        natural_ok(b),
        natural_ok(c),
        numbered(b, n) == numbered(c, m),
    ensures
        b == c,
        n == m,
{
    reveal_strlit(".md");
    lemma_numbered_shape(b, n);
    lemma_numbered_shape(c, m);
    let x = b.take(b.len() - 3);
    let y = c.take(c.len() - 3);
    assert forall|k: int| 0 <= k < x.len() implies x[k] != '-' by {
        assert(b.contains(b[k]));
    }
    assert forall|k: int| 0 <= k < y.len() implies y[k] != '-' by {
        assert(c.contains(c[k]));
    }
    assert(x + "-"@ + decimal(n) + ".md"@ == y + "-"@ + decimal(m) + ".md"@);
    lemma_dash_split(x, decimal(n), y, decimal(m));
    lemma_decimal_injective(n, m);
    assert(b =~= x + b.skip(b.len() - 3));
    assert(c =~= y + c.skip(c.len() - 3));
}

/// A numbered natural file holds a `-`.
proof fn lemma_numbered_dash(b: Seq<char>, n: nat)
    requires
        natural_ok(b),
    ensures
        numbered(b, n).contains('-'),
{
    reveal_strlit("-");
    reveal_strlit(".md");
    lemma_numbered_shape(b, n);
    assert(numbered(b, n)[b.len() - 3] == '-');
}

/// What the files assigned so far are: each one's folded name is taken, no
/// two are equal, and each is a natural file, or a natural file numbered
/// `n` whose folded name has been taken at least `n` times.
pub open spec fn assigned_inv(u: Map<Seq<char>, nat>, fs: Seq<Option<Seq<char>>>) -> bool {
    &&& forall|k: int| 0 <= k < fs.len() ==> (#[trigger] fs[k] matches Some(f) ==> u.contains_key(lowercase(f)))
    &&& forall|k1: int, k2: int|
        0 <= k1 < k2 < fs.len() && fs[k1] is Some && fs[k2] is Some ==> #[trigger] fs[k1] != #[trigger] fs[k2]
    &&& forall|k: int|
        0 <= k < fs.len() ==> (#[trigger] fs[k] matches Some(f) ==> natural_ok(f) || exists|b: Seq<char>, n: nat|
            natural_ok(b) && n >= 2 && f == #[trigger] numbered(b, n) && u.contains_key(lowercase(b))
                && u[lowercase(b)] >= n)
}

proof fn lemma_assigned_inv(bases: Seq<Option<Seq<char>>>)
    requires
        forall|k: int| 0 <= k < bases.len() ==> (#[trigger] bases[k] matches Some(b) ==> natural_ok(b)),
    ensures
        assigned(bases).1.len() == bases.len(),
        assigned_inv(assigned(bases).0, assigned(bases).1),
    decreases bases.len(),
{
    if bases.len() > 0 {
        let p = bases.drop_last();
        assert forall|k: int| 0 <= k < p.len() implies (#[trigger] p[k] matches Some(b) ==> natural_ok(b)) by {
            assert(p[k] == bases[k]);
        }
        lemma_assigned_inv(p);
        lemma_assigned_shape(p);
        let (u, fs) = assigned(p);
        let u2 = assigned(bases).0;
        let fs2 = assigned(bases).1;
        assert forall|k: int| 0 <= k < fs.len() implies fs2[k] == fs[k] by {}
        match bases.last() {
            None => {
                assert(fs2 == fs.push(None));
            },
            Some(b) => {
                assert(bases[bases.len() - 1] == Some(b));
                assert(natural_ok(b));
                let key = lowercase(b);
                let c: nat = if u.contains_key(key) {
                    u[key] + 1
                } else {
                    1
                };
                let u1 = u.insert(key, c);
                let f = dedup_step(u, b).1;
                assert(fs2 == fs.push(Some(f)));
                assert(u2 == dedup_step(u, b).0);
                // Taken names only grow, and counts never drop.
                assert forall|x: Seq<char>| #[trigger] u.contains_key(x) implies u2.contains_key(x) && u2[x] >= u[x] by {}
                // Each file's folded name is taken.
                assert forall|k: int| 0 <= k < fs2.len() implies (#[trigger] fs2[k] matches Some(g) ==> u2.contains_key(
                    lowercase(g),
                )) by {
                    if k < fs.len() {
                        assert(fs2[k] == fs[k]);
                    }
                }
                // No two files are equal.
                assert forall|k1: int, k2: int|
                    0 <= k1 < k2 < fs2.len() && fs2[k1] is Some && fs2[k2] is Some implies #[trigger] fs2[k1]
                    != #[trigger] fs2[k2] by {
                    if k2 < fs.len() {
                        assert(fs2[k1] == fs[k1] && fs2[k2] == fs[k2]);
                    } else {
                        assert(k2 == fs.len());
                        assert(fs2[k1] == fs[k1]);
                        assert(fs2[k2] == Some(f));
                        let g = fs[k1]->0;
                        assert(fs[k1] == Some(g));
                        if c == 1 {
                            assert(f == b);
                            if g == f {
                                assert(u.contains_key(key) && u[key] >= 1);
                            }
                        } else {
                            assert(f == numbered(b, c));
                            if g == f {
                                lemma_numbered_dash(b, c);
                                if !natural_ok(g) {
                                    let (b2, n2) = choose|b2: Seq<char>, n2: nat|
                                        natural_ok(b2) && n2 >= 2 && g == #[trigger] numbered(b2, n2) && u.contains_key(
                                            lowercase(b2),
                                        ) && u[lowercase(b2)] >= n2;
                                    lemma_numbered_injective(b, c, b2, n2);
                                }
                            }
                        }
                        assert(fs2[k1] != fs2[k2]);
                    }
                }
                // Each file is natural or a numbered natural file.
                assert forall|k: int| 0 <= k < fs2.len() implies (#[trigger] fs2[k] matches Some(g) ==> natural_ok(g)
                    || exists|b3: Seq<char>, n3: nat|
                    natural_ok(b3) && n3 >= 2 && g == #[trigger] numbered(b3, n3) && u2.contains_key(lowercase(b3))
                        && u2[lowercase(b3)] >= n3) by {
                    if k < fs.len() {
                        assert(fs2[k] == fs[k]);
                        if let Some(g) = fs[k] {
                            if !natural_ok(g) {
                                let (b2, n2) = choose|b2: Seq<char>, n2: nat|
                                    natural_ok(b2) && n2 >= 2 && g == #[trigger] numbered(b2, n2) && u.contains_key(
                                        lowercase(b2),
                                    ) && u[lowercase(b2)] >= n2;
                                assert(u2.contains_key(lowercase(b2)) && u2[lowercase(b2)] >= n2);
                            }
                        }
                    } else if c >= 2 {
                        assert(f == numbered(b, c));
                        assert(u1[key] == c);
                        assert(u2.contains_key(key) && u2[key] >= c);
                    }
                }
            },
        }
    }
}

/// An item is assigned a file exactly when it has a natural file.
pub proof fn lemma_files_some(bases: Seq<Option<Seq<char>>>)
    ensures
        assigned(bases).1.len() == bases.len(),
        forall|i: int| 0 <= i < bases.len() ==> (#[trigger] assigned(bases).1[i] is Some) == (bases[i] is Some),
{
    lemma_assigned_shape(bases);
}

/// Where every natural file holds no `-`, does not start with `/` and has a
/// name before its `.md` extension, no two items are assigned the same file.
pub proof fn law_files_distinct(bases: Seq<Option<Seq<char>>>, i: int, j: int)
    requires
        forall|k: int| 0 <= k < bases.len() ==> (#[trigger] bases[k] matches Some(b) ==> natural_ok(b)),
        0 <= i < j < bases.len(),
        bases[i] is Some,
        bases[j] is Some,
    ensures
        assigned(bases).1[i] is Some,
        assigned(bases).1[j] is Some,
        assigned(bases).1[i] != assigned(bases).1[j],
{
    lemma_assigned_inv(bases);
    lemma_assigned_shape(bases);
    assert(assigned(bases).1[i] is Some);
    assert(assigned(bases).1[j] is Some);
}

/// Two lists of paths in canonical order with the same paths are equal.
proof fn lemma_sorted_unique(a: Seq<Seq<Seq<char>>>, b: Seq<Seq<Seq<char>>>)
    requires
        paths_sorted(a),
        paths_sorted(b),
        a.to_multiset() == b.to_multiset(),
    ensures
        a == b,
    decreases a.len(),
{
    broadcast use vstd::seq_lib::group_to_multiset_ensures;

    assert(a.len() == a.to_multiset().len());
    assert(b.len() == b.to_multiset().len());
    if a.len() > 0 {
        let x = a[0];
        let y = b[0];
        assert(a.contains(x));
        assert(b.to_multiset().count(x) > 0);
        assert(b.contains(x));
        assert(b.contains(y));
        assert(a.to_multiset().count(y) > 0);
        assert(a.contains(y));
        if x != y {
            let i = choose|i: int| 0 <= i < b.len() && b[i] == x;
            let j = choose|j: int| 0 <= j < a.len() && a[j] == y;
            assert(i > 0 && j > 0);
            assert(!path_precedes(b[i], b[0]));
            assert(!path_precedes(a[j], a[0]));
            crate::model::lemma_path_precedes_order(x, y, x);
        }
        assert(a =~= seq![x] + a.drop_first());
        assert(b =~= seq![y] + b.drop_first());
        assert(a.drop_first().to_multiset() =~= a.to_multiset().remove(x)) by {
            a.drop_first().to_multiset_ensures();
            assert(a.drop_first().push(x).to_multiset() == a.drop_first().to_multiset().insert(x));
            vstd::seq_lib::lemma_seq_union_to_multiset_commutative(seq![x], a.drop_first());
            vstd::seq_lib::lemma_multiset_commutative(seq![x], a.drop_first());
        }
        assert(b.drop_first().to_multiset() =~= b.to_multiset().remove(y)) by {
            vstd::seq_lib::lemma_multiset_commutative(seq![y], b.drop_first());
        }
        assert forall|i: int, j: int| 0 <= i < j < a.drop_first().len() implies !path_precedes(
            #[trigger] a.drop_first()[j],
            #[trigger] a.drop_first()[i],
        ) by {
            assert(a.drop_first()[j] == a[j + 1] && a.drop_first()[i] == a[i + 1]);
        }
        assert forall|i: int, j: int| 0 <= i < j < b.drop_first().len() implies !path_precedes(
            #[trigger] b.drop_first()[j],
            #[trigger] b.drop_first()[i],
        ) by {
            assert(b.drop_first()[j] == b[j + 1] && b.drop_first()[i] == b[i + 1]);
        }
        lemma_sorted_unique(a.drop_first(), b.drop_first());
    }
}

/// An item's paths, canonical first, are its discovered paths in canonical
/// order (shortest first, then lexicographic): any list of those paths in
/// that order is exactly them.
pub proof fn law_placed_paths_sorted(k: Crate, it: DocItem, e: (Id, Seq<Seq<Seq<char>>>), q: Seq<Seq<Seq<char>>>)
    requires
        placed_from(k, it, e),
        paths_sorted(q),
        q.to_multiset() == e.1.to_multiset(),
    ensures
        placed_paths(it) == q,
{
    reveal(placed_from);
    lemma_sorted_unique(placed_paths(it), q);
}

/// The canonical path comes first in canonical order: no alternate precedes
/// it, and it precedes every alternate different from it.
pub proof fn law_canonical_first(k: Crate, it: DocItem, e: (Id, Seq<Seq<Seq<char>>>), a: int)
    requires
        placed_from(k, it, e),
        0 <= a < it.alternates@.len(),
    ensures
        !path_precedes(it.alternates@[a]@, it.canonical@),
        it.alternates@[a]@ != it.canonical@ ==> path_precedes(it.canonical@, it.alternates@[a]@),
{
    reveal(placed_from);
    let ps = placed_paths(it);
    assert(ps[0] == it.canonical@);
    assert(ps[a + 1] == it.alternates@[a]@);
    lemma_path_precedes_order(it.canonical@, it.alternates@[a]@, it.canonical@);
}

} // verus!
