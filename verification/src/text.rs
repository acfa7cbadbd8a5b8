//! Character-level text helpers shared by the renderers: whitespace trimming,
//! line splitting, prefixes, joins and lexicographic order, each with the
//! sequence-of-characters model that the contracts speak of.

use vstd::prelude::*;

verus! {

// ---------------------------------------------------------------------------
// Model

/// Unicode `White_Space` (the property that `char::is_whitespace` and
/// `str::trim` use).
pub open spec fn is_ws(c: char) -> bool {
    let u = c as u32;
    ||| 0x9 <= u <= 0xd
    ||| u == 0x20
    ||| u == 0x85
    ||| u == 0xa0
    ||| u == 0x1680
    ||| 0x2000 <= u <= 0x200a
    ||| u == 0x2028
    ||| u == 0x2029
    ||| u == 0x202f
    ||| u == 0x205f
    ||| u == 0x3000
}

/// Number of leading whitespace characters.
pub open spec fn ws_prefix_len(s: Seq<char>) -> nat
    decreases s.len(),
{
    if s.len() == 0 || !is_ws(s[0]) {
        0
    } else {
        1 + ws_prefix_len(s.drop_first())
    }
}

/// Number of trailing whitespace characters.
pub open spec fn ws_suffix_len(s: Seq<char>) -> nat
    decreases s.len(),
{
    if s.len() == 0 || !is_ws(s.last()) {
        0
    } else {
        1 + ws_suffix_len(s.drop_last())
    }
}

/// `str::trim_start`.
pub open spec fn trim_start(s: Seq<char>) -> Seq<char> {
    s.skip(ws_prefix_len(s) as int)
}

/// `str::trim_end`.
pub open spec fn trim_end(s: Seq<char>) -> Seq<char> {
    s.take(s.len() - ws_suffix_len(s))
}

/// `str::trim`.
pub open spec fn trim(s: Seq<char>) -> Seq<char> {
    trim_end(trim_start(s))
}

/// `s` begins with `p`.
pub open spec fn starts_with(s: Seq<char>, p: Seq<char>) -> bool {
    p.len() <= s.len() && s.take(p.len() as int) == p
}

/// `s` ends with `p`.
pub open spec fn ends_with(s: Seq<char>, p: Seq<char>) -> bool {
    p.len() <= s.len() && s.skip(s.len() - p.len()) == p
}

/// Number of copies of `c` at the start of `s`.
pub open spec fn leading_count(s: Seq<char>, c: char) -> nat
    decreases s.len(),
{
    if s.len() == 0 || s[0] != c {
        0
    } else {
        1 + leading_count(s.drop_first(), c)
    }
}

/// `n` copies of `c`.
pub open spec fn repeat(c: char, n: nat) -> Seq<char> {
    Seq::new(n, |i: int| c)
}

/// First index at or after `p` holding `c`.
pub open spec fn next_index_of(s: Seq<char>, c: char, p: int) -> Option<int>
    decreases s.len() - p,
{
    if p < 0 || p >= s.len() {
        None
    } else if s[p] == c {
        Some(p)
    } else {
        next_index_of(s, c, p + 1)
    }
}

/// `s` contains `c`.
pub open spec fn has_char(s: Seq<char>, c: char) -> bool {
    exists|i: int| 0 <= i < s.len() && s[i] == c
}

/// A line taken from before a `\n`, with one `\r` removed from its end.
pub open spec fn strip_cr(l: Seq<char>) -> Seq<char> {
    if l.len() > 0 && l.last() == '\r' {
        l.drop_last()
    } else {
        l
    }
}

/// `str::lines` from position `p`: split at `\n`; a `\r` right before a `\n`
/// is dropped; a final `\n` produces no empty last line.
pub open spec fn lines_from(s: Seq<char>, p: int) -> Seq<Seq<char>>
    decreases s.len() - p,
{
    if p < 0 || p >= s.len() {
        seq![]
    } else {
        match next_index_of(s, '\n', p) {
            Some(k) => if p <= k < s.len() {
                seq![strip_cr(s.subrange(p, k))] + lines_from(s, k + 1)
            } else {
                seq![]
            },
            None => seq![s.subrange(p, s.len() as int)],
        }
    }
}

/// `str::lines`.
pub open spec fn lines(s: Seq<char>) -> Seq<Seq<char>> {
    lines_from(s, 0)
}

/// `parts` joined with `sep` between neighbours.
pub open spec fn join(parts: Seq<Seq<char>>, sep: Seq<char>) -> Seq<char>
    decreases parts.len(),
{
    if parts.len() == 0 {
        seq![]
    } else if parts.len() == 1 {
        parts[0]
    } else {
        join(parts.drop_last(), sep) + sep + parts.last()
    }
}

/// Strict lexicographic order on characters by code point, which is the
/// order of `str`'s `Ord` (UTF-8 byte order preserves code point order).
pub open spec fn seq_lt(a: Seq<char>, b: Seq<char>) -> bool
    decreases a.len(),
{
    if b.len() == 0 {
        false
    } else if a.len() == 0 {
        true
    } else if a[0] != b[0] {
        a[0] < b[0]
    } else {
        seq_lt(a.drop_first(), b.drop_first())
    }
}

/// Last index of `c` in `s`.
pub open spec fn last_index_of(s: Seq<char>, c: char) -> Option<int>
    decreases s.len(),
{
    if s.len() == 0 {
        None
    } else if s.last() == c {
        Some(s.len() - 1)
    } else {
        last_index_of(s.drop_last(), c)
    }
}

// ---------------------------------------------------------------------------
// Lemmas

pub proof fn lemma_seq_lt_irrefl(a: Seq<char>)
    ensures
        !seq_lt(a, a),
    decreases a.len(),
{
    if a.len() > 0 {
        lemma_seq_lt_irrefl(a.drop_first());
    }
}

pub proof fn lemma_seq_lt_asym(a: Seq<char>, b: Seq<char>)
    ensures
        !(seq_lt(a, b) && seq_lt(b, a)),
    decreases a.len(),
{
    if a.len() > 0 && b.len() > 0 && a[0] == b[0] {
        lemma_seq_lt_asym(a.drop_first(), b.drop_first());
    }
}

pub proof fn lemma_seq_lt_total(a: Seq<char>, b: Seq<char>)
    ensures
        seq_lt(a, b) || seq_lt(b, a) || a == b,
    decreases a.len(),
{
    if a.len() > 0 && b.len() > 0 && a[0] == b[0] {
        lemma_seq_lt_total(a.drop_first(), b.drop_first());
        if a.drop_first() == b.drop_first() {
            assert(a =~= seq![a[0]] + a.drop_first());
            assert(b =~= seq![b[0]] + b.drop_first());
        }
    } else if a.len() == 0 && b.len() == 0 {
        assert(a =~= b);
    }
}

pub proof fn lemma_seq_lt_trans(a: Seq<char>, b: Seq<char>, c: Seq<char>)
    requires
        seq_lt(a, b),
        seq_lt(b, c),
    ensures
        seq_lt(a, c),
    decreases a.len(),
{
    if a.len() > 0 && b.len() > 0 && c.len() > 0 && a[0] == b[0] && b[0] == c[0] {
        lemma_seq_lt_trans(a.drop_first(), b.drop_first(), c.drop_first());
    }
}

pub proof fn lemma_ws_prefix_props(s: Seq<char>)
    ensures
        ws_prefix_len(s) <= s.len(),
        forall|i: int| 0 <= i < ws_prefix_len(s) ==> is_ws(#[trigger] s[i]),
        ws_prefix_len(s) < s.len() ==> !is_ws(s[ws_prefix_len(s) as int]),
    decreases s.len(),
{
    if s.len() > 0 && is_ws(s[0]) {
        lemma_ws_prefix_props(s.drop_first());
        assert forall|i: int| 0 <= i < ws_prefix_len(s) implies is_ws(#[trigger] s[i]) by {
            if i > 0 {
                assert(s[i] == s.drop_first()[i - 1]);
            }
        }
    }
}

pub proof fn lemma_ws_suffix_props(s: Seq<char>)
    ensures
        ws_suffix_len(s) <= s.len(),
        forall|i: int| s.len() - ws_suffix_len(s) <= i < s.len() ==> is_ws(#[trigger] s[i]),
        ws_suffix_len(s) < s.len() ==> !is_ws(s[s.len() - 1 - ws_suffix_len(s)]),
    decreases s.len(),
{
    if s.len() > 0 && is_ws(s.last()) {
        lemma_ws_suffix_props(s.drop_last());
        assert forall|i: int| s.len() - ws_suffix_len(s) <= i < s.len() implies is_ws(
            #[trigger] s[i],
        ) by {
            if i < s.len() - 1 {
                assert(s[i] == s.drop_last()[i]);
            }
        }
    }
}

pub proof fn lemma_ws_suffix_char(s: Seq<char>, k: nat)
    requires
        k <= s.len(),
        forall|i: int| s.len() - k <= i < s.len() ==> is_ws(#[trigger] s[i]),
        k < s.len() ==> !is_ws(s[s.len() - 1 - k]),
    ensures
        ws_suffix_len(s) == k,
    decreases s.len(),
{
    if k > 0 {
        assert(is_ws(s[s.len() - 1]));
        let t = s.drop_last();
        assert forall|i: int| t.len() - (k - 1) <= i < t.len() implies is_ws(#[trigger] t[i]) by {
            assert(t[i] == s[i]);
        }
        if k - 1 < t.len() {
            assert(t[t.len() - 1 - (k - 1)] == s[s.len() - 1 - k]);
        }
        lemma_ws_suffix_char(t, (k - 1) as nat);
    } else if s.len() > 0 {
        assert(!is_ws(s.last()));
    }
}

pub proof fn lemma_trim_bounds(s: Seq<char>)
    ensures
        ws_prefix_len(s) < s.len() ==> ws_prefix_len(s) + ws_suffix_len(s) < s.len(),
{
    lemma_ws_prefix_props(s);
    lemma_ws_suffix_props(s);
    let lo = ws_prefix_len(s) as int;
    let tl = ws_suffix_len(s) as int;
    if lo < s.len() && lo + tl >= s.len() {
        assert(s.len() - tl <= lo);
        assert(is_ws(s[lo]));
    }
}

pub proof fn lemma_trim_range(s: Seq<char>, lo: int, tl: int)
    requires
        lo == ws_prefix_len(s),
        tl == ws_suffix_len(s),
    ensures
        lo + tl >= s.len() ==> trim(s) == Seq::<char>::empty(),
        lo + tl < s.len() ==> trim(s) == s.subrange(lo, s.len() - tl),
{
    lemma_ws_prefix_props(s);
    lemma_ws_suffix_props(s);
    lemma_trim_bounds(s);
    let t = s.skip(lo);
    if lo + tl >= s.len() {
        assert(lo == s.len());
        assert(t.len() == 0);
        lemma_ws_suffix_props(t);
        assert(trim(s) =~= Seq::<char>::empty());
    } else {
        assert forall|i: int| t.len() - tl <= i < t.len() implies is_ws(#[trigger] t[i]) by {
            assert(t[i] == s[lo + i]);
        }
        assert(t[t.len() - 1 - tl] == s[s.len() - 1 - tl]);
        lemma_ws_suffix_char(t, tl as nat);
        assert(trim(s) =~= s.subrange(lo, s.len() - tl));
    }
}

proof fn lemma_ws_prefix_step(s: Seq<char>, i: int)
    requires
        0 <= i < s.len(),
        is_ws(s[i]),
    ensures
        ws_prefix_len(s.skip(i)) == 1 + ws_prefix_len(s.skip(i + 1)),
{
    assert(s.skip(i).drop_first() =~= s.skip(i + 1));
}

proof fn lemma_ws_suffix_step(s: Seq<char>, j: int)
    requires
        0 < j <= s.len(),
        is_ws(s[j - 1]),
    ensures
        ws_suffix_len(s.take(j)) == 1 + ws_suffix_len(s.take(j - 1)),
{
    assert(s.take(j).drop_last() =~= s.take(j - 1));
}

proof fn lemma_leading_count_step(s: Seq<char>, c: char, i: int)
    requires
        0 <= i < s.len(),
        s[i] == c,
    ensures
        leading_count(s.skip(i), c) == 1 + leading_count(s.skip(i + 1), c),
{
    assert(s.skip(i).drop_first() =~= s.skip(i + 1));
}

pub proof fn lemma_join_push(parts: Seq<Seq<char>>, p: Seq<char>, sep: Seq<char>)
    ensures
        join(parts.push(p), sep) == if parts.len() == 0 {
            p
        } else {
            join(parts, sep) + sep + p
        },
{
    assert(parts.push(p).drop_last() =~= parts);
}

// ---------------------------------------------------------------------------
// Executable helpers

/// `String::push`: the contract claims that the string's characters gain `c`
/// at the end and are otherwise unchanged.
#[verifier::external_body]
pub(crate) fn push_char(s: &mut String, c: char)
    ensures
        final(s)@ == old(s)@.push(c),
{
    s.push(c);
}

/// Appends a string slice.
pub fn push_str(s: &mut String, t: &str)
    ensures
        final(s)@ == old(s)@ + t@,
{
    s.append(t);
}

/// The characters of `s`, in order.
pub fn chars_of(s: &str) -> (v: Vec<char>)
    ensures
        v@ == s@,
{
    broadcast use vstd::string::axiom_spec_iter;

    let mut v: Vec<char> = Vec::new();
    for c in it: s.chars()
        invariant
            v@ == it.seq().take(it.index() as int),
    {
        v.push(c);
    }
    v
}

/// Appends `s[lo..hi]`.
pub fn push_range(out: &mut String, s: &[char], lo: usize, hi: usize)
    requires
        lo <= hi <= s@.len(),
    ensures
        final(out)@ == old(out)@ + s@.subrange(lo as int, hi as int),
{
    let ghost start = out@;
    let mut i = lo;
    while i < hi
        invariant
            lo <= i <= hi <= s@.len(),
            out@ == start + s@.subrange(lo as int, i as int),
        decreases hi - i,
    {
        push_char(out, s[i]);
        i += 1;
        assert(s@.subrange(lo as int, i as int) =~= s@.subrange(lo as int, i - 1).push(s@[i - 1]));
    }
}

/// A new string holding `s[lo..hi]`.
pub fn range_string(s: &[char], lo: usize, hi: usize) -> (r: String)
    requires
        lo <= hi <= s@.len(),
    ensures
        r@ == s@.subrange(lo as int, hi as int),
{
    let mut r = String::new();
    push_range(&mut r, s, lo, hi);
    r
}

/// `char::is_whitespace`.
pub fn is_whitespace(c: char) -> (b: bool)
    ensures
        b == is_ws(c),
{
    let u = c as u32;
    (0x9 <= u && u <= 0xd) || u == 0x20 || u == 0x85 || u == 0xa0 || u == 0x1680 || (0x2000 <= u
        && u <= 0x200a) || u == 0x2028 || u == 0x2029 || u == 0x202f || u == 0x205f || u == 0x3000
}

/// Number of whitespace characters at the start of `s[lo..]`.
pub fn ws_prefix(s: &[char], lo: usize) -> (n: usize)
    requires
        lo <= s@.len(),
    ensures
        n == ws_prefix_len(s@.skip(lo as int)),
        lo + n <= s@.len(),
{
    let mut i = lo;
    while i < s.len() && is_whitespace(s[i])
        invariant
            lo <= i <= s@.len(),
            ws_prefix_len(s@.skip(lo as int)) == (i - lo) + ws_prefix_len(s@.skip(i as int)),
        decreases s@.len() - i,
    {
        proof {
            lemma_ws_prefix_step(s@, i as int);
        }
        i += 1;
    }
    i - lo
}

/// Number of whitespace characters at the end of `s[..hi]`.
pub fn ws_suffix(s: &[char], hi: usize) -> (n: usize)
    requires
        hi <= s@.len(),
    ensures
        n == ws_suffix_len(s@.take(hi as int)),
        n <= hi,
{
    let mut j = hi;
    while j > 0 && is_whitespace(s[j - 1])
        invariant
            j <= hi <= s@.len(),
            ws_suffix_len(s@.take(hi as int)) == (hi - j) + ws_suffix_len(s@.take(j as int)),
        decreases j,
    {
        proof {
            lemma_ws_suffix_step(s@, j as int);
        }
        j -= 1;
    }
    hi - j
}

/// Number of copies of `c` at the start of `s[lo..]`.
pub fn count_leading(s: &[char], lo: usize, c: char) -> (n: usize)
    requires
        lo <= s@.len(),
    ensures
        n == leading_count(s@.skip(lo as int), c),
        lo + n <= s@.len(),
{
    let mut i = lo;
    while i < s.len() && s[i] == c
        invariant
            lo <= i <= s@.len(),
            leading_count(s@.skip(lo as int), c) == (i - lo) + leading_count(s@.skip(i as int), c),
        decreases s@.len() - i,
    {
        proof {
            lemma_leading_count_step(s@, c, i as int);
        }
        i += 1;
    }
    i - lo
}

/// Whether `s[lo..]` begins with `p`.
pub fn starts_with_at(s: &[char], lo: usize, p: &[char]) -> (b: bool)
    requires
        lo <= s@.len(),
    ensures
        b == starts_with(s@.skip(lo as int), p@),
{
    if p.len() > s.len() - lo {
        return false;
    }
    let mut i: usize = 0;
    while i < p.len()
        invariant
            i <= p@.len(),
            lo + p@.len() <= s.len(),
            forall|k: int| 0 <= k < i ==> s@[lo + k] == p@[k],
        decreases p@.len() - i,
    {
        assert(lo + i < s@.len());
        if s[lo + i] != p[i] {
            assert(s@.skip(lo as int).take(p@.len() as int)[i as int] != p@[i as int]);
            return false;
        }
        i += 1;
    }
    assert(s@.skip(lo as int).take(p@.len() as int) =~= p@);
    true
}

/// Whether the whole of `a` equals the whole of `b`.
pub fn chars_eq(a: &[char], b: &[char]) -> (r: bool)
    ensures
        r == (a@ == b@),
{
    if a.len() != b.len() {
        return false;
    }
    let mut i: usize = 0;
    while i < a.len()
        invariant
            i <= a@.len(),
            a@.len() == b@.len(),
            forall|k: int| 0 <= k < i ==> a@[k] == b@[k],
        decreases a@.len() - i,
    {
        if a[i] != b[i] {
            return false;
        }
        i += 1;
    }
    assert(a@ =~= b@);
    true
}

/// Whether `s` holds `c`.
pub fn contains_char(s: &[char], c: char) -> (r: bool)
    ensures
        r == has_char(s@, c),
{
    let mut i: usize = 0;
    while i < s.len()
        invariant
            i <= s@.len(),
            forall|k: int| 0 <= k < i ==> s@[k] != c,
        decreases s@.len() - i,
    {
        if s[i] == c {
            return true;
        }
        i += 1;
    }
    false
}

/// First index at or after `p` holding `c`.
pub fn find_char(s: &[char], c: char, p: usize) -> (r: Option<usize>)
    requires
        p <= s@.len(),
    ensures
        r matches Some(k) ==> next_index_of(s@, c, p as int) == Some(k as int) && p <= k < s@.len(),
        r is None ==> next_index_of(s@, c, p as int) is None,
{
    let mut i = p;
    while i < s.len()
        invariant
            p <= i <= s@.len(),
            next_index_of(s@, c, p as int) == next_index_of(s@, c, i as int),
        decreases s@.len() - i,
    {
        if s[i] == c {
            return Some(i);
        }
        i += 1;
    }
    None
}

/// `str::lines`, as character vectors.
pub fn split_lines(s: &[char]) -> (r: Vec<Vec<char>>)
    ensures
        r@.map_values(|l: Vec<char>| l@) == lines(s@),
{
    let mut out: Vec<Vec<char>> = Vec::new();
    let mut p: usize = 0;
    while p < s.len()
        invariant
            p <= s@.len(),
            out@.map_values(|l: Vec<char>| l@) + lines_from(s@, p as int) == lines(s@),
        decreases s@.len() - p,
    {
        let ghost before = out@.map_values(|l: Vec<char>| l@);
        match find_char(s, '\n', p) {
            Some(k) => {
                let mut end = k;
                if k > p && s[k - 1] == '\r' {
                    end = k - 1;
                }
                let mut line: Vec<char> = Vec::new();
                let mut i = p;
                while i < end
                    invariant
                        p <= i <= end <= k < s@.len(),
                        line@ == s@.subrange(p as int, i as int),
                    decreases end - i,
                {
                    line.push(s[i]);
                    i += 1;
                    assert(line@ =~= s@.subrange(p as int, i as int));
                }
                assert(strip_cr(s@.subrange(p as int, k as int)) =~= s@.subrange(p as int, end as int));
                out.push(line);
                assert(out@.map_values(|l: Vec<char>| l@) =~= before.push(
                    s@.subrange(p as int, end as int),
                ));
                assert(lines_from(s@, p as int) == seq![strip_cr(s@.subrange(p as int, k as int))]
                    + lines_from(s@, k + 1));
                assert(before + lines_from(s@, p as int) =~= before.push(
                    s@.subrange(p as int, end as int),
                ) + lines_from(s@, k + 1));
                p = k + 1;
            },
            None => {
                let mut line: Vec<char> = Vec::new();
                let mut i = p;
                while i < s.len()
                    invariant
                        p <= i <= s@.len(),
                        line@ == s@.subrange(p as int, i as int),
                    decreases s@.len() - i,
                {
                    line.push(s[i]);
                    i += 1;
                    assert(line@ =~= s@.subrange(p as int, i as int));
                }
                out.push(line);
                assert(out@.map_values(|l: Vec<char>| l@) =~= before.push(
                    s@.subrange(p as int, s@.len() as int),
                ));
                assert(before + lines_from(s@, p as int) =~= before.push(
                    s@.subrange(p as int, s@.len() as int),
                ) + lines_from(s@, s@.len() as int));
                p = s.len();
            },
        }
    }
    assert(out@.map_values(|l: Vec<char>| l@) + lines_from(s@, p as int) =~= out@.map_values(
        |l: Vec<char>| l@,
    ));
    out
}

/// Whether `a` sorts strictly before `b`.
pub fn chars_lt(a: &[char], b: &[char]) -> (r: bool)
    ensures
        r == seq_lt(a@, b@),
{
    let mut i: usize = 0;
    assert(a@.skip(0) =~= a@);
    assert(b@.skip(0) =~= b@);
    while i < a.len() && i < b.len() && a[i] == b[i]
        invariant
            i <= a@.len(),
            i <= b@.len(),
            seq_lt(a@, b@) == seq_lt(a@.skip(i as int), b@.skip(i as int)),
        decreases a@.len() - i,
    {
        assert(a@.skip(i as int).drop_first() =~= a@.skip(i + 1));
        assert(b@.skip(i as int).drop_first() =~= b@.skip(i + 1));
        i += 1;
    }
    if i == b.len() {
        false
    } else if i == a.len() {
        true
    } else {
        a[i] < b[i]
    }
}

/// Whether string `a` sorts strictly before string `b`.
pub fn str_lt(a: &str, b: &str) -> (r: bool)
    ensures
        r == seq_lt(a@, b@),
{
    let x = chars_of(a);
    let y = chars_of(b);
    chars_lt(x.as_slice(), y.as_slice())
}

/// Whether string `a` equals string `b`.
pub fn str_eq(a: &str, b: &str) -> (r: bool)
    ensures
        r == (a@ == b@),
{
    let x = chars_of(a);
    let y = chars_of(b);
    chars_eq(x.as_slice(), y.as_slice())
}

/// Last index of `c` in `s`.
pub fn find_last(s: &[char], c: char) -> (r: Option<usize>)
    ensures
        r matches Some(i) ==> last_index_of(s@, c) == Some(i as int) && i < s@.len(),
        r is None ==> last_index_of(s@, c) is None,
{
    let mut j = s.len();
    assert(s@.take(j as int) =~= s@);
    while j > 0
        invariant
            j <= s@.len(),
            last_index_of(s@, c) == last_index_of(s@.take(j as int), c),
        decreases j,
    {
        if s[j - 1] == c {
            return Some(j - 1);
        }
        assert(s@.take(j as int).drop_last() =~= s@.take(j - 1));
        j -= 1;
    }
    None
}

/// The texts of a vector of strings.
pub open spec fn texts(v: Seq<String>) -> Seq<Seq<char>> {
    v.map_values(|s: String| s@)
}

/// Joins `parts` with `sep` between neighbours.
pub fn join_strings(parts: &Vec<String>, sep: &str) -> (r: String)
    ensures
        r@ == join(texts(parts@), sep@),
{
    let ghost pv = texts(parts@);
    let mut out = String::new();
    let mut i: usize = 0;
    while i < parts.len()
        invariant
            i <= parts@.len(),
            pv == texts(parts@),
            out@ == join(pv.take(i as int), sep@),
        decreases parts@.len() - i,
    {
        proof {
            lemma_join_push(pv.take(i as int), parts@[i as int]@, sep@);
            assert(pv.take(i + 1) =~= pv.take(i as int).push(parts@[i as int]@));
        }
        if i > 0 {
            push_str(&mut out, sep);
        }
        push_str(&mut out, parts[i].as_str());
        i += 1;
    }
    assert(pv.take(parts@.len() as int) =~= pv);
    out
}

/// Pushes `s` onto a list of strings; the texts grow by `s`'s text.
pub fn push_text(parts: &mut Vec<String>, s: String)
    ensures
        texts(final(parts)@) == texts(old(parts)@).push(s@),
{
    let ghost before = texts(parts@);
    parts.push(s);
    assert(texts(parts@) =~= before.push(s@));
}

/// The non-empty members of `parts`, in order.
pub open spec fn non_empty(parts: Seq<Seq<char>>) -> Seq<Seq<char>>
    decreases parts.len(),
{
    if parts.len() == 0 {
        seq![]
    } else if parts.last().len() == 0 {
        non_empty(parts.drop_last())
    } else {
        non_empty(parts.drop_last()).push(parts.last())
    }
}

/// Appends `n` copies of `c`.
pub fn push_repeat(out: &mut String, c: char, n: usize)
    ensures
        final(out)@ == old(out)@ + repeat(c, n as nat),
{
    let ghost start = out@;
    let mut i: usize = 0;
    while i < n
        invariant
            i <= n,
            out@ == start + repeat(c, i as nat),
        decreases n - i,
    {
        push_char(out, c);
        i += 1;
        assert(repeat(c, i as nat) =~= repeat(c, (i - 1) as nat).push(c));
    }
}

/// A copy of `s`.
pub fn copy_str(s: &str) -> (r: String)
    ensures
        r@ == s@,
{
    let mut r = String::new();
    push_str(&mut r, s);
    r
}

} // verus!
