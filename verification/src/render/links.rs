//! Cross-reference resolution: relative links between output files, heading
//! anchors, and the module-file heuristic used for source references.

use vstd::prelude::*;

use crate::model::paths::{decimal, push_decimal};
use crate::model::rustdoc::{Id, Item};
use crate::model::{kind_of, path_module, DocKind, DocModel};
use crate::paths_text::{file_name, segments, split_segments};
use crate::render::sorting::{
    entries_increasing, entries_view, entry_view, insert_entry, lemma_sorted_distinct,
    sorted_distinct, Entry,
};
use crate::render::{doc_index, module_entries, module_file_in, module_table, Ctx};
use crate::text::{chars_eq, chars_of, copy_str, join, push_char, push_range, push_str, texts, trim};

verus! {

/// Length of the longest common prefix of two segment lists.
pub open spec fn common_prefix_len(a: Seq<Seq<char>>, b: Seq<Seq<char>>) -> nat
    decreases a.len(),
{
    if a.len() == 0 || b.len() == 0 || a[0] != b[0] {
        0
    } else {
        1 + common_prefix_len(a.drop_first(), b.drop_first())
    }
}

/// The segments of the link from file `from` to file `to`: one `..` per
/// directory of `from` below the shared directories, then the rest of `to`'s
/// directories, then `to`'s file name.
pub open spec fn link_segments(from: Seq<char>, to: Seq<char>) -> Seq<Seq<char>> {
    link_parts(segments(from), segments(to))
}

/// The relative link text from `from` to `to`.
pub open spec fn relative_link_text(from: Seq<char>, to: Seq<char>) -> Seq<char> {
    let segs = link_segments(from, to);
    if segs.len() == 0 {
        match file_name(to) {
            Some(n) => n,
            None => seq![],
        }
    } else {
        join(segs, seq!['/'])
    }
}

/// Names what `str::to_lowercase` returns for a string (Unicode lowercase
/// mapping, which may change a string's length).
pub uninterp spec fn lowercase(s: Seq<char>) -> Seq<char>;

/// Names what `char::is_alphanumeric` returns (Unicode `Alphabetic` or
/// `Numeric`).
pub uninterp spec fn alphanumeric(c: char) -> bool;

/// `str::to_lowercase`: the contract only names the result.
#[verifier::external_body]
pub(crate) fn to_lowercase(s: &str) -> (r: String)
    ensures
        r@ == lowercase(s@),
{
    s.to_lowercase()
}

/// `char::is_alphanumeric`: the contract only names the result.
#[verifier::external_body]
fn is_alphanumeric(c: char) -> (b: bool)
    ensures
        b == alphanumeric(c),
{
    c.is_alphanumeric()
}

/// What a character becomes in a heading slug.
pub open spec fn slug_char(c: char) -> Option<char> {
    if c == ' ' {
        Some('-')
    } else if alphanumeric(c) || c == '-' || c == '_' {
        Some(c)
    } else {
        None
    }
}

/// The slug of a sequence of characters, character by character.
pub open spec fn slug_chars(s: Seq<char>) -> Seq<char>
    decreases s.len(),
{
    if s.len() == 0 {
        seq![]
    } else {
        let head = match slug_char(s[0]) {
            Some(c) => seq![c],
            None => seq![],
        };
        head + slug_chars(s.drop_first())
    }
}

proof fn lemma_slug_step(s: Seq<char>, i: int)
    requires
        0 <= i < s.len(),
    ensures
        slug_chars(s.skip(i)) == match slug_char(s[i]) {
            Some(c) => seq![c],
            None => seq![],
        } + slug_chars(s.skip(i + 1)),
{
    assert(s.skip(i).drop_first() =~= s.skip(i + 1));
    assert(s.skip(i)[0] == s[i]);
}

/// The link segments computed from the segment lists of `from` and `to`.
pub open spec fn link_parts(fs: Seq<Seq<char>>, ts: Seq<Seq<char>>) -> Seq<Seq<char>> {
    let fd = if fs.len() == 0 {
        fs
    } else {
        fs.drop_last()
    };
    let td = if ts.len() == 0 {
        ts
    } else {
        ts.drop_last()
    };
    let c = common_prefix_len(fd, td);
    let ups = Seq::new((fd.len() - c) as nat, |i: int| seq!['.', '.']);
    let tail = if ts.len() == 0 || ts.last() == seq!['.', '.'] {
        seq![]
    } else {
        seq![ts.last()]
    };
    ups + td.skip(c as int) + tail
}

/// The `..` segment.
pub open spec fn dot_dot() -> Seq<char> {
    seq!['.', '.']
}

/// The directory reached by following the segments of `link` from the
/// directory `dir`: `..` goes up one level, any other segment goes down.
pub open spec fn resolve(dir: Seq<Seq<char>>, link: Seq<Seq<char>>) -> Seq<Seq<char>>
    decreases link.len(),
{
    if link.len() == 0 {
        dir
    } else if link[0] == dot_dot() {
        resolve(
            if dir.len() > 0 {
                dir.drop_last()
            } else {
                dir
            },
            link.drop_first(),
        )
    } else {
        resolve(dir.push(link[0]), link.drop_first())
    }
}

/// No segment is `..`.
pub open spec fn plain(segs: Seq<Seq<char>>) -> bool {
    forall|i: int| 0 <= i < segs.len() ==> #[trigger] segs[i] != dot_dot()
}

proof fn lemma_resolve_concat(d: Seq<Seq<char>>, a: Seq<Seq<char>>, b: Seq<Seq<char>>)
    ensures
        resolve(d, a + b) == resolve(resolve(d, a), b),
    decreases a.len(),
{
    if a.len() > 0 {
        assert((a + b).drop_first() =~= a.drop_first() + b);
        assert((a + b)[0] == a[0]);
        let d1 = if a[0] == dot_dot() {
            if d.len() > 0 {
                d.drop_last()
            } else {
                d
            }
        } else {
            d.push(a[0])
        };
        lemma_resolve_concat(d1, a.drop_first(), b);
    } else {
        assert(a + b =~= b);
    }
}

proof fn lemma_resolve_ups(d: Seq<Seq<char>>, n: nat)
    requires
        n <= d.len(),
    ensures
        resolve(d, Seq::new(n, |i: int| dot_dot())) == d.take(d.len() - n),
    decreases n,
{
    let ups = Seq::new(n, |i: int| dot_dot());
    if n == 0 {
        assert(d.take(d.len() as int) =~= d);
    } else {
        assert(ups[0] == dot_dot());
        assert(ups.drop_first() =~= Seq::new((n - 1) as nat, |i: int| dot_dot()));
        lemma_resolve_ups(d.drop_last(), (n - 1) as nat);
        assert(d.drop_last().take(d.drop_last().len() - (n - 1)) =~= d.take(d.len() - n));
    }
}

proof fn lemma_resolve_plain(d: Seq<Seq<char>>, s: Seq<Seq<char>>)
    requires
        plain(s),
    ensures
        resolve(d, s) == d + s,
    decreases s.len(),
{
    if s.len() == 0 {
        assert(d + s =~= d);
    } else {
        assert(s[0] != dot_dot());
        assert(plain(s.drop_first())) by {
            assert forall|i: int| 0 <= i < s.drop_first().len() implies #[trigger] s.drop_first()[i] != dot_dot() by {
                assert(s.drop_first()[i] == s[i + 1]);
            }
        }
        lemma_resolve_plain(d.push(s[0]), s.drop_first());
        assert(d.push(s[0]) + s.drop_first() =~= d + s);
    }
}

proof fn lemma_common_prefix(a: Seq<Seq<char>>, b: Seq<Seq<char>>)
    ensures
        common_prefix_len(a, b) <= a.len(),
        common_prefix_len(a, b) <= b.len(),
        a.take(common_prefix_len(a, b) as int) == b.take(common_prefix_len(a, b) as int),
    decreases a.len(),
{
    if a.len() > 0 && b.len() > 0 && a[0] == b[0] {
        lemma_common_prefix(a.drop_first(), b.drop_first());
        let c = common_prefix_len(a.drop_first(), b.drop_first());
        assert(a.take(c + 1int) =~= seq![a[0]] + a.drop_first().take(c as int));
        assert(b.take(c + 1int) =~= seq![b[0]] + b.drop_first().take(c as int));
    } else {
        assert(a.take(0) =~= b.take(0));
    }
}

/// Following the relative link from `from` to `to` (the text that
/// `relative_link` returns, the link's segments joined by `/`), starting in
/// the directory of `from`, arrives at `to`: for file paths with a file name
/// whose segments are never `..`.
pub proof fn law_link_resolves(from: Seq<char>, to: Seq<char>)
    requires
        segments(from).len() > 0,
        segments(to).len() > 0,
        plain(segments(from)),
        plain(segments(to)),
    ensures
        link_segments(from, to).len() > 0,
        relative_link_text(from, to) == join(link_segments(from, to), seq!['/']),
        resolve(segments(from).drop_last(), link_segments(from, to)) == segments(to),
{
    let fs = segments(from);
    let ts = segments(to);
    let fd = fs.drop_last();
    let td = ts.drop_last();
    let c = common_prefix_len(fd, td);
    lemma_common_prefix(fd, td);
    let ups = Seq::new((fd.len() - c) as nat, |i: int| dot_dot());
    assert(ups =~= Seq::new((fd.len() - c) as nat, |i: int| seq!['.', '.']));
    assert(ts.last() == ts[ts.len() - 1]);
    assert(ts.last() != dot_dot());
    let rest = td.skip(c as int) + seq![ts.last()];
    assert(link_segments(from, to) == ups + rest);
    assert(plain(rest)) by {
        assert forall|i: int| 0 <= i < rest.len() implies #[trigger] rest[i] != dot_dot() by {
            if i < rest.len() - 1 {
                assert(rest[i] == ts[c + i]);
            }
        }
    }
    lemma_resolve_concat(fd, ups, rest);
    lemma_resolve_ups(fd, (fd.len() - c) as nat);
    lemma_resolve_plain(fd.take(c as int), rest);
    assert(fd.take(c as int) + rest =~= ts);
}

/// Joins `parts` with `sep` between neighbours.
pub fn join_parts(parts: &Vec<Vec<char>>, sep: char) -> (r: String)
    ensures
        r@ == join(parts@.map_values(|l: Vec<char>| l@), seq![sep]),
{
    let ghost pv = parts@.map_values(|l: Vec<char>| l@);
    let mut out = String::new();
    let mut i: usize = 0;
    while i < parts.len()
        invariant
            i <= parts@.len(),
            pv == parts@.map_values(|l: Vec<char>| l@),
            out@ == join(pv.take(i as int), seq![sep]),
        decreases parts@.len() - i,
    {
        let p = parts[i].as_slice();
        proof {
            crate::text::lemma_join_push(pv.take(i as int), p@, seq![sep]);
            assert(pv.take(i + 1) =~= pv.take(i as int).push(p@));
        }
        if i > 0 {
            push_char(&mut out, sep);
        }
        push_range(&mut out, p, 0, p.len());
        assert(p@.subrange(0, p@.len() as int) =~= p@);
        i += 1;
    }
    assert(pv.take(parts@.len() as int) =~= pv);
    out
}

/// The directory segments shared by two segment lists.
fn common_dirs(fsegs: &Vec<Vec<char>>, tsegs: &Vec<Vec<char>>, nf: usize, nt: usize) -> (c: usize)
    requires
        nf <= fsegs@.len(),
        nt <= tsegs@.len(),
    ensures
        c <= nf,
        c <= nt,
        c == common_prefix_len(
            fsegs@.map_values(|l: Vec<char>| l@).take(nf as int),
            tsegs@.map_values(|l: Vec<char>| l@).take(nt as int),
        ),
{
    let ghost fd = fsegs@.map_values(|l: Vec<char>| l@).take(nf as int);
    let ghost td = tsegs@.map_values(|l: Vec<char>| l@).take(nt as int);
    let mut common: usize = 0;
    assert(fd.skip(0) =~= fd);
    assert(td.skip(0) =~= td);
    while common < nf && common < nt && chars_eq(fsegs[common].as_slice(), tsegs[common].as_slice())
        invariant
            common <= nf <= fsegs@.len(),
            common <= nt <= tsegs@.len(),
            fd == fsegs@.map_values(|l: Vec<char>| l@).take(nf as int),
            td == tsegs@.map_values(|l: Vec<char>| l@).take(nt as int),
            common_prefix_len(fd, td) == common + common_prefix_len(
                fd.skip(common as int),
                td.skip(common as int),
            ),
        decreases nf - common,
    {
        assert(fd.skip(common as int).drop_first() =~= fd.skip(common + 1));
        assert(td.skip(common as int).drop_first() =~= td.skip(common + 1));
        assert(fd.skip(common as int)[0] == fsegs@[common as int]@);
        assert(td.skip(common as int)[0] == tsegs@[common as int]@);
        common += 1;
    }
    proof {
        if common < nf && common < nt {
            assert(fd.skip(common as int)[0] == fsegs@[common as int]@);
            assert(td.skip(common as int)[0] == tsegs@[common as int]@);
        }
    }
    common
}

/// Clones a character vector.
fn clone_chars(v: &Vec<char>) -> (r: Vec<char>)
    ensures
        r@ == v@,
{
    let mut r: Vec<char> = Vec::new();
    let mut i: usize = 0;
    while i < v.len()
        invariant
            i <= v@.len(),
            r@ == v@.take(i as int),
        decreases v@.len() - i,
    {
        r.push(v[i]);
        i += 1;
        assert(r@ =~= v@.take(i as int));
    }
    assert(v@.take(v@.len() as int) =~= v@);
    r
}

/// The segments of the link between two segment lists.
fn link_parts_exec(fsegs: &Vec<Vec<char>>, tsegs: &Vec<Vec<char>>) -> (r: Vec<Vec<char>>)
    ensures
        r@.map_values(|l: Vec<char>| l@) == link_parts(
            fsegs@.map_values(|l: Vec<char>| l@),
            tsegs@.map_values(|l: Vec<char>| l@),
        ),
{
    let ghost fs = fsegs@.map_values(|l: Vec<char>| l@);
    let ghost ts = tsegs@.map_values(|l: Vec<char>| l@);
    let nf: usize = if fsegs.len() == 0 {
        0
    } else {
        fsegs.len() - 1
    };
    let nt: usize = if tsegs.len() == 0 {
        0
    } else {
        tsegs.len() - 1
    };
    let ghost fd = if fs.len() == 0 {
        fs
    } else {
        fs.drop_last()
    };
    let ghost td = if ts.len() == 0 {
        ts
    } else {
        ts.drop_last()
    };
    assert(fd =~= fs.take(nf as int));
    assert(td =~= ts.take(nt as int));
    let common = common_dirs(fsegs, tsegs, nf, nt);
    let mut out: Vec<Vec<char>> = Vec::new();
    let mut i: usize = 0;
    while i < nf - common
        invariant
            i <= nf - common,
            out@.map_values(|l: Vec<char>| l@) =~= Seq::new(i as nat, |k: int| seq!['.', '.']),
        decreases nf - common - i,
    {
        let mut dd: Vec<char> = Vec::new();
        dd.push('.');
        dd.push('.');
        assert(dd@ =~= seq!['.', '.']);
        let ghost before = out@.map_values(|l: Vec<char>| l@);
        out.push(dd);
        assert(out@.map_values(|l: Vec<char>| l@) =~= before.push(seq!['.', '.']));
        i += 1;
    }
    let ghost ups = out@.map_values(|l: Vec<char>| l@);
    let mut j = common;
    while j < nt
        invariant
            common <= j <= nt <= tsegs@.len(),
            ts == tsegs@.map_values(|l: Vec<char>| l@),
            td =~= ts.take(nt as int),
            out@.map_values(|l: Vec<char>| l@) =~= ups + td.subrange(common as int, j as int),
        decreases nt - j,
    {
        let seg = clone_chars(&tsegs[j]);
        let ghost before = out@.map_values(|l: Vec<char>| l@);
        assert(seg@ == ts[j as int]);
        out.push(seg);
        assert(out@.map_values(|l: Vec<char>| l@) =~= before.push(ts[j as int]));
        assert(td.subrange(common as int, j + 1) =~= td.subrange(common as int, j as int).push(
            ts[j as int],
        ));
        j += 1;
    }
    if tsegs.len() > 0 && !is_dot_dot(tsegs[tsegs.len() - 1].as_slice()) {
        let seg = clone_chars(&tsegs[tsegs.len() - 1]);
        let ghost before = out@.map_values(|l: Vec<char>| l@);
        out.push(seg);
        assert(out@.map_values(|l: Vec<char>| l@) =~= before.push(ts.last()));
    }
    assert(td.skip(common as int) =~= td.subrange(common as int, nt as int));
    out
}

/// Compute a relative markdown link from file `from` to file `to`, both given as
/// paths relative to the output root.
pub fn relative_link(from: &str, to: &str) -> (r: String)
    ensures
        r@ == relative_link_text(from@, to@),
{
    let fc = chars_of(from);
    let tc = chars_of(to);
    let fsegs = split_segments(fc.as_slice());
    let tsegs = split_segments(tc.as_slice());
    let parts = link_parts_exec(&fsegs, &tsegs);
    if parts.len() == 0 {
        // Linking a file to itself.
        to_name_only(to)
    } else {
        join_parts(&parts, '/')
    }
}

/// Whether a segment is `..`.
fn is_dot_dot(seg: &[char]) -> (b: bool)
    ensures
        b == (seg@ == seq!['.', '.']),
{
    if seg.len() == 2 && seg[0] == '.' && seg[1] == '.' {
        assert(seg@ =~= seq!['.', '.']);
        true
    } else {
        proof {
            if seg@ == seq!['.', '.'] {
                assert(seg@[0] == '.' && seg@[1] == '.');
            }
        }
        false
    }
}

/// The file name of `path`, or the empty string when it has none.
fn to_name_only(path: &str) -> (r: String)
    ensures
        r@ == match file_name(path@) {
            Some(n) => n,
            None => seq![],
        },
{
    let pc = chars_of(path);
    let segs = split_segments(pc.as_slice());
    let ghost sv = segs@.map_values(|l: Vec<char>| l@);
    let mut out = String::new();
    if segs.len() > 0 && !is_dot_dot(segs[segs.len() - 1].as_slice()) {
        let seg = segs[segs.len() - 1].as_slice();
        assert(sv.last() == seg@);
        push_range(&mut out, seg, 0, seg.len());
        assert(seg@.subrange(0, seg@.len() as int) =~= seg@);
    }
    out
}

/// Slug used for a markdown heading anchor (GitHub-style: lowercase, spaces to
/// dashes, drop characters other than alphanumerics, `-`, `_`).
pub fn heading_slug(name: &str) -> (r: String)
    ensures
        r@ == slug_chars(lowercase(trim(name@))),
{
    let nc = chars_of(name);
    let lo = crate::text::ws_prefix(nc.as_slice(), 0);
    let tail = crate::text::ws_suffix(nc.as_slice(), nc.len());
    proof {
        assert(nc@.skip(0) =~= nc@);
        assert(nc@.take(nc@.len() as int) =~= nc@);
        crate::text::lemma_trim_bounds(nc@);
    }
    let trimmed = if lo >= nc.len() - tail {
        String::new()
    } else {
        crate::text::range_string(nc.as_slice(), lo, nc.len() - tail)
    };
    proof {
        crate::text::lemma_trim_range(nc@, lo as int, tail as int);
    }
    let lower = to_lowercase(trimmed.as_str());
    slug_of_lowercase(lower.as_str())
}

/// The slug of text that has already been lowercased: spaces become dashes,
/// alphanumerics, `-` and `_` stay, every other character is dropped.
pub fn slug_of_lowercase(lowered: &str) -> (r: String)
    ensures
        r@ == slug_chars(lowered@),
{
    let lc = chars_of(lowered);
    let mut out = String::new();
    let mut i: usize = 0;
    assert(lc@.skip(0) =~= lc@);
    while i < lc.len()
        invariant
            i <= lc@.len(),
            out@ + slug_chars(lc@.skip(i as int)) == slug_chars(lc@),
        decreases lc@.len() - i,
    {
        let c = lc[i];
        proof {
            lemma_slug_step(lc@, i as int);
        }
        if c == ' ' {
            push_char(&mut out, '-');
        } else if is_alphanumeric(c) || c == '-' || c == '_' {
            push_char(&mut out, c);
        }
        i += 1;
    }
    assert(lc@.skip(lc@.len() as int) =~= Seq::<char>::empty());
    out
}

/// The stem of a file name: the part before its last `.`, unless that part
/// would be empty.
pub open spec fn stem_of(name: Seq<char>) -> Seq<char> {
    match crate::text::last_index_of(name, '.') {
        Some(i) => if i > 0 {
            name.take(i)
        } else {
            name
        },
        None => name,
    }
}

/// Heuristic: does this module live in its own file (`mod name;`, i.e. `name.rs`
/// or `name/mod.rs`) rather than being declared inline (`mod name { ... }`)?
pub open spec fn in_own_file(file: Seq<char>, name: Option<Seq<char>>) -> bool {
    let segs = segments(file);
    match name {
        None => false,
        Some(n) => match file_name(file) {
            None => false,
            Some(f) => if stem_of(f) == seq!['m', 'o', 'd'] {
                segs.len() >= 2 && segs[segs.len() - 2] != seq!['.', '.'] && segs[segs.len()
                    - 2] == n
            } else {
                stem_of(f) == n
            },
        },
    }
}

/// Heuristic: does this module live in its own file (`mod name;`, i.e. `name.rs`
/// or `name/mod.rs`) rather than being declared inline (`mod name { ... }`)?
pub fn module_in_own_file(file: &str, name: Option<&str>) -> (b: bool)
    ensures
        b == in_own_file(
            file@,
            match name {
                Some(n) => Some(n@),
                None => None,
            },
        ),
{
    let n = match name {
        None => {
            return false;
        },
        Some(n) => chars_of(n),
    };
    let fc = chars_of(file);
    let segs = split_segments(fc.as_slice());
    let ghost sv = segs@.map_values(|l: Vec<char>| l@);
    if segs.len() == 0 || is_dot_dot(segs[segs.len() - 1].as_slice()) {
        return false;
    }
    let last = segs[segs.len() - 1].as_slice();
    assert(sv.last() == last@);
    let stem_end = stem_len(last);
    let stem = &last[0..stem_end];
    assert(stem@ =~= stem_of(last@));
    let is_mod = stem.len() == 3 && stem[0] == 'm' && stem[1] == 'o' && stem[2] == 'd';
    proof {
        if stem@ == seq!['m', 'o', 'd'] {
            assert(stem@[0] == 'm' && stem@[1] == 'o' && stem@[2] == 'd');
        }
        if is_mod {
            assert(stem@ =~= seq!['m', 'o', 'd']);
        }
    }
    if is_mod {
        if segs.len() >= 2 {
            let parent = segs[segs.len() - 2].as_slice();
            assert(sv[sv.len() - 2] == parent@);
            !is_dot_dot(parent) && chars_eq(parent, n.as_slice())
        } else {
            false
        }
    } else {
        chars_eq(stem, n.as_slice())
    }
}

/// Length of the stem of file name `name`.
fn stem_len(name: &[char]) -> (n: usize)
    ensures
        n <= name@.len(),
        name@.take(n as int) == stem_of(name@),
{
    match crate::text::find_last(name, '.') {
        Some(i) => if i > 0 {
            i
        } else {
            assert(name@.take(name@.len() as int) =~= name@);
            name.len()
        },
        None => {
            assert(name@.take(name@.len() as int) =~= name@);
            name.len()
        },
    }
}


// ---------------------------------------------------------------------------
// Links between documented items

/// The output file that documents `id`: its own file, or for an inline item
/// the file of its containing module; `None` if `id` is not documented.
pub open spec fn target_of(m: DocModel, id: Id) -> Option<Seq<char>> {
    match doc_index(m.items@, id) {
        None => None,
        Some(i) => match m.items@[i].file {
            Some(f) => Some(f@),
            None => module_file_in(module_entries(m.items@), path_module(m.items@[i].canonical@)),
        },
    }
}

/// The link from file `from` to the documented item `id`: the relative path
/// to its file, with `#` and the heading slug of its name for inline items.
pub open spec fn link_of(m: DocModel, from: Seq<char>, id: Id) -> Option<Seq<char>> {
    match target_of(m, id) {
        None => None,
        Some(t) => {
            let href = relative_link_text(from, t);
            match doc_index(m.items@, id) {
                Some(i) => if m.items@[i].file is None {
                    Some(href.push('#') + slug_chars(lowercase(trim(m.items@[i].name@))))
                } else {
                    Some(href)
                },
                None => Some(href),
            }
        },
    }
}

/// The (text, link) pairs of an item's intra-doc links that resolve to
/// documented items, in the order of the links.
pub open spec fn def_entries(m: DocModel, from: Seq<char>, links: Seq<(String, Id)>) -> Seq<Entry>
    decreases links.len(),
{
    if links.len() == 0 {
        seq![]
    } else {
        let r = def_entries(m, from, links.drop_last());
        match link_of(m, from, links.last().1) {
            Some(href) => r.push((links.last().0@, Some(href))),
            None => r,
        }
    }
}

/// Reference-style link definitions `[text]: href`, one per line.
pub open spec fn defs_text(es: Seq<Entry>) -> Seq<char>
    decreases es.len(),
{
    if es.len() == 0 {
        seq![]
    } else {
        defs_text(es.drop_last()) + seq!['['] + es.last().0 + "]: "@ + match es.last().1 {
            Some(h) => h,
            None => seq![],
        } + seq!['\n']
    }
}

/// A path with every backslash turned into a slash.
pub open spec fn slashed(s: Seq<char>) -> Seq<char> {
    s.map_values(|c: char| if c == '\\' { '/' } else { c })
}

/// The optional name of an item, as text.
pub open spec fn name_view(n: Option<String>) -> Option<Seq<char>> {
    match n {
        Some(s) => Some(s@),
        None => None,
    }
}

/// A `_Defined at_` source reference: the span's file, and the line where the
/// item begins unless it is a module in a file of its own.
pub open spec fn source_ref_text(item: Item) -> Option<Seq<char>> {
    match item.span {
        None => None,
        Some(sp) => {
            let file = slashed(sp.filename@);
            let omit_line = kind_of(item.inner) == DocKind::Module && in_own_file(file, name_view(item.name));
            Some(
                "_Defined at_ `"@ + file + if omit_line {
                    seq!['`']
                } else {
                    seq![':'] + decimal(sp.begin.0 as nat) + seq!['`']
                },
            )
        },
    }
}

/// Position of the first origin recorded for `id`.
pub open spec fn origin_index(os: Seq<(Id, crate::model::ReexportOrigin)>, id: Id) -> Option<int>
    decreases os.len(),
{
    if os.len() == 0 {
        None
    } else if os[0].0 == id {
        Some(0)
    } else {
        match origin_index(os.drop_first(), id) {
            Some(i) => Some(i + 1),
            None => None,
        }
    }
}

/// The `_Reexported from_` note for an item inlined from a dependency.
pub open spec fn reexport_note_text(m: DocModel, id: Id) -> Option<Seq<char>> {
    match origin_index(m.origins@, id) {
        Some(i) => Some("_Reexported from_ `"@ + join(texts(m.origins@[i].1.path@), "::"@) + "`."@),
        None => None,
    }
}

/// The reexport note of an item followed by a blank line, if it has one.
pub open spec fn note_block(m: DocModel, id: Id) -> Seq<char> {
    match reexport_note_text(m, id) {
        Some(n) => n + "\n\n"@,
        None => seq![],
    }
}

/// The text of an optional string.
pub open spec fn opt_text(o: Option<String>) -> Option<Seq<char>> {
    match o {
        Some(s) => Some(s@),
        None => None,
    }
}

/// A copy of a path with backslashes turned into slashes.
fn slash_path(s: &str) -> (r: String)
    ensures
        r@ == slashed(s@),
{
    let cs = chars_of(s);
    let mut out = String::new();
    let mut i: usize = 0;
    while i < cs.len()
        invariant
            i <= cs@.len(),
            cs@ == s@,
            out@ == slashed(s@).take(i as int),
        decreases cs@.len() - i,
    {
        let c = cs[i];
        push_char(&mut out, if c == '\\' { '/' } else { c });
        assert(slashed(s@).take(i + 1) =~= slashed(s@).take(i as int).push(slashed(s@)[i as int]));
        i += 1;
    }
    assert(slashed(s@).take(cs@.len() as int) =~= slashed(s@));
    out
}

impl<'a> Ctx<'a> {
    /// The output file that documents `id` (its own file, or for an inline item
    /// the file of its containing module). `None` if `id` is not documented.
    pub fn target_file(&self, id: Id) -> (r: Option<String>)
        requires
            self.wf(),
        ensures
            opt_text(r) == target_of(*self.model, id),
    {
        let item = match self.doc(id) {
            Some(it) => it,
            None => {
                return None;
            },
        };
        if let Some(file) = &item.file {
            return Some(copy_str(file.as_str()));
        }
        // Inline item: link to its module's file.
        let module = item.canonical.module();
        let ghost mp = path_module(item.canonical@);
        let mut j = self.module_files.len();
        let ghost tab = module_table(self.module_files@);
        assert(tab.take(j as int) =~= tab);
        while j > 0
            invariant
                j <= self.module_files@.len(),
                tab == module_table(self.module_files@),
                self.wf(),
                texts(module@) == mp,
                mp == path_module(item.canonical@),
                item.file is None,
                match doc_index(self.model.items@, id) {
                    Some(k) => self.model.items@[k] == *item,
                    None => false,
                },
                module_file_in(tab, mp) == module_file_in(tab.take(j as int), mp),
            decreases j,
        {
            let e = &self.module_files[j - 1];
            assert(tab.take(j as int).last() == (texts(e.0@), e.1@));
            let es = e.0.as_slice();
            assert(es@ == e.0@);
            if crate::model::segments_equal(es, module) {
                assert(module_file_in(tab.take(j as int), mp) == Some(e.1@));
                return Some(copy_str(e.1.as_str()));
            }
            assert(tab.take(j as int).drop_last() =~= tab.take(j - 1));
            j -= 1;
        }
        None
    }

    /// A markdown link target (relative path, plus an anchor for inline items)
    /// from `from` to the documented item `id`, if documented.
    pub fn link(&self, from: &str, id: Id) -> (r: Option<String>)
        requires
            self.wf(),
        ensures
            opt_text(r) == link_of(*self.model, from@, id),
    {
        let target = match self.target_file(id) {
            Some(t) => t,
            None => {
                return None;
            },
        };
        let mut href = relative_link(from, target.as_str());
        if let Some(item) = self.doc(id) {
            if item.file.is_none() {
                // Inline items render under a heading slugged from their name.
                push_char(&mut href, '#');
                let slug = heading_slug(item.name.as_str());
                push_str(&mut href, slug.as_str());
            }
        }
        Some(href)
    }

    /// Reference-style link definitions resolving an item's intra-doc links to
    /// the items being documented. Appending these lets shortcut references like
    /// `` [`Foo`] `` in the doc text resolve without rewriting the body. Links to
    /// undocumented items (e.g. `std`) are skipped and render as plain text.
    pub fn intra_doc_definitions(&self, from: &str, item: &Item) -> (r: String)
        requires
            self.wf(),
        ensures
            r@ == defs_text(sorted_distinct(def_entries(*self.model, from@, item.links@))),
    {
        let mut defs: Vec<(String, Option<String>)> = Vec::new();
        let ghost all = def_entries(*self.model, from@, item.links@);
        let mut i: usize = 0;
        while i < item.links.len()
            invariant
                i <= item.links@.len(),
                all == def_entries(*self.model, from@, item.links@),
                self.wf(),
                entries_increasing(entries_view(defs@)),
                forall|x: Entry| entries_view(defs@).contains(x) <==> def_entries(
                    *self.model,
                    from@,
                    item.links@.take(i as int),
                ).contains(x),
            decreases item.links@.len() - i,
        {
            let ghost pre = item.links@.take(i as int);
            assert(item.links@.take(i + 1).drop_last() =~= pre);
            assert(item.links@.take(i + 1).last() == item.links@[i as int]);
            let (text, id) = (&item.links[i].0, item.links[i].1);
            match self.link(from, id) {
                Some(href) => {
                    let e = (copy_str(text.as_str()), Some(href));
                    insert_entry(&mut defs, e);
                    let ghost now = def_entries(*self.model, from@, item.links@.take(i + 1));
                    assert(now == def_entries(*self.model, from@, pre).push(entry_view(e)));
                    assert forall|x: Entry| entries_view(defs@).contains(x) <==> now.contains(x) by {
                        if x == entry_view(e) {
                            assert(now[now.len() - 1] == x);
                        }
                        if now.contains(x) && x != entry_view(e) {
                            let k = choose|k: int| 0 <= k < now.len() && now[k] == x;
                            assert(def_entries(*self.model, from@, pre)[k] == x);
                        }
                        if def_entries(*self.model, from@, pre).contains(x) {
                            let k = choose|k: int|
                                0 <= k < def_entries(*self.model, from@, pre).len()
                                    && def_entries(*self.model, from@, pre)[k] == x;
                            assert(now[k] == x);
                        }
                    }
                },
                None => {},
            }
            i += 1;
        }
        assert(item.links@.take(item.links@.len() as int) =~= item.links@);
        proof {
            lemma_sorted_distinct(entries_view(defs@), all);
        }
        // Deterministic order.
        let mut out = String::new();
        let mut k: usize = 0;
        let ghost ev = entries_view(defs@);
        while k < defs.len()
            invariant
                k <= defs@.len(),
                ev == entries_view(defs@),
                out@ == defs_text(ev.take(k as int)),
            decreases defs@.len() - k,
        {
            assert(ev.take(k + 1).drop_last() =~= ev.take(k as int));
            assert(ev[k as int] == entry_view(defs@[k as int]));
            push_char(&mut out, '[');
            push_str(&mut out, defs[k].0.as_str());
            push_str(&mut out, "]: ");
            match &defs[k].1 {
                Some(h) => push_str(&mut out, h.as_str()),
                None => {},
            }
            push_char(&mut out, '\n');
            assert(out@ =~= defs_text(ev.take(k + 1)));
            k += 1;
        }
        assert(ev.take(defs@.len() as int) =~= ev);
        out
    }

    /// A `_Defined at_` source reference for an item, rendered as plain inline
    /// code (no hyperlink). Modules using the `mod name;` form omit the line
    /// number; everything else includes it.
    pub fn source_ref(&self, item: &Item) -> (r: Option<String>)
        ensures
            opt_text(r) == source_ref_text(*item),
    {
        let span = match &item.span {
            Some(s) => s,
            None => {
                return None;
            },
        };
        let file = slash_path(span.filename.as_str());
        let is_module = crate::model::DocKind::of(&item.inner) == DocKind::Module;
        let omit_line = is_module && module_in_own_file(
            file.as_str(),
            match &item.name {
                Some(n) => Some(n.as_str()),
                None => None,
            },
        );
        let mut out = copy_str("_Defined at_ `");
        push_str(&mut out, file.as_str());
        if !omit_line {
            push_char(&mut out, ':');
            push_decimal(&mut out, span.begin.0);
        }
        push_char(&mut out, '`');
        proof {
            let tail = if omit_line {
                seq!['`']
            } else {
                seq![':'] + decimal(span.begin.0 as nat) + seq!['`']
            };
            assert(out@ =~= "_Defined at_ `"@ + file@ + tail);
        }
        Some(out)
    }

    /// A `_Reexported from_` annotation for items inlined from an external
    /// dependency, or `None` for native items (including those reexported from a
    /// private module of this crate).
    pub fn reexport_note(&self, id: Id) -> (r: Option<String>)
        ensures
            opt_text(r) == reexport_note_text(*self.model, id),
    {
        let os = &self.model.origins;
        let mut i: usize = 0;
        assert(os@.skip(0) =~= os@);
        while i < os.len()
            invariant
                i <= os@.len(),
                os == &self.model.origins,
                origin_index(os@, id) == match origin_index(os@.skip(i as int), id) {
                    Some(k) => Some(k + i),
                    None => None,
                },
            decreases os@.len() - i,
        {
            assert(os@.skip(i as int)[0] == os@[i as int]);
            if os[i].0 == id {
                let mut out = copy_str("_Reexported from_ `");
                let shown = os[i].1.display();
                push_str(&mut out, shown.as_str());
                push_str(&mut out, "`.");
                return Some(out);
            }
            assert(os@.skip(i as int).drop_first() =~= os@.skip(i + 1));
            i += 1;
        }
        None
    }
}


/// Appends the reexport note of an item and a blank line, if it has one.
pub fn push_note(ctx: &Ctx, out: &mut String, id: Id)
    ensures
        final(out)@ == old(out)@ + note_block(*ctx.model, id),
{
    if let Some(note) = ctx.reexport_note(id) {
        push_str(out, note.as_str());
        push_str(out, "\n\n");
    }
}

} // verus!
