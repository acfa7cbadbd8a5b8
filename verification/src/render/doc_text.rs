//! Doc-comment rendering: shift embedded headings beneath the item's own
//! heading and strip hidden doctest lines, with a light line-based pass.

use vstd::prelude::*;

use crate::text::{
    chars_of, count_leading, leading_count, lines, push_char, push_range, push_repeat, push_str,
    range_string, repeat, split_lines, starts_with, starts_with_at, trim_end, trim_start,
    ws_prefix, ws_prefix_len, ws_suffix,
};

verus! {

/// An optional character vector, seen as an optional sequence.
pub open spec fn opt_chars(o: Option<Vec<char>>) -> Option<Seq<char>> {
    match o {
        Some(v) => Some(v@),
        None => None,
    }
}

/// The fence marker opened by trimmed line `t`: three or more backticks, else
/// three or more tildes, as many as `t` starts with.
pub open spec fn fence_of(t: Seq<char>) -> Option<Seq<char>> {
    let nb = leading_count(t, '`');
    let nt = leading_count(t, '~');
    if nb >= 3 {
        Some(repeat('`', nb))
    } else if nt >= 3 {
        Some(repeat('~', nt))
    } else {
        None
    }
}

/// A hidden doctest line: after leading whitespace, `#` alone or `#` and a space.
pub open spec fn is_hidden_line(line: Seq<char>) -> bool {
    let t = trim_start(line);
    t == seq!['#'] || starts_with(t, seq!['#', ' '])
}

/// An escaped doctest line (`##...` after the indent) with one `#` removed.
pub open spec fn unescaped(line: Seq<char>) -> Option<Seq<char>> {
    let k = ws_prefix_len(line);
    let t = line.skip(k as int);
    if starts_with(t, seq!['#', '#']) {
        Some(line.take(k as int) + t.skip(1))
    } else {
        None
    }
}

/// An ATX heading: 1 to 6 `#`, then a space; the level and the text after it
/// (leading whitespace removed).
pub open spec fn heading_of(t: Seq<char>) -> Option<(nat, Seq<char>)> {
    let level = leading_count(t, '#');
    if 1 <= level <= 6 && starts_with(t.skip(level as int), seq![' ']) {
        Some((level, trim_start(t.skip(level + 1 as int))))
    } else {
        None
    }
}

/// `#` repeated `min(level + base, 6)` times, a space, then `rest`.
pub open spec fn shifted_heading(level: nat, base: nat, rest: Seq<char>) -> Seq<char> {
    let n = if level + base < 6 {
        level + base
    } else {
        6
    };
    repeat('#', n as nat) + seq![' '] + rest
}

/// One step of the line pass: given the open fence (if any) and a line, the
/// fence afterwards and the line emitted (if any).
pub open spec fn doc_step(fence: Option<Seq<char>>, line: Seq<char>, base: nat) -> (
    Option<Seq<char>>,
    Option<Seq<char>>,
) {
    let t = trim_start(line);
    match fence {
        Some(marker) => if starts_with(t, marker) {
            (None, Some(line))
        } else {
            match unescaped(line) {
                Some(u) => (fence, Some(u)),
                None => if !is_hidden_line(line) {
                    (fence, Some(line))
                } else {
                    (fence, None)
                },
            }
        },
        None => match fence_of(t) {
            Some(m) => (Some(m), Some(line)),
            None => match heading_of(t) {
                Some((level, rest)) => (None, Some(shifted_heading(level, base, rest))),
                None => (None, Some(line)),
            },
        },
    }
}

/// The emitted text of `ls` (each emitted line followed by `\n`), starting in
/// fence state `fence`.
pub open spec fn doc_lines_text(ls: Seq<Seq<char>>, fence: Option<Seq<char>>, base: nat) -> Seq<
    char,
>
    decreases ls.len(),
{
    if ls.len() == 0 {
        seq![]
    } else {
        let (f2, emitted) = doc_step(fence, ls[0], base);
        let head = match emitted {
            Some(l) => l.push('\n'),
            None => seq![],
        };
        head + doc_lines_text(ls.drop_first(), f2, base)
    }
}

/// The rendered form of doc comment `docs` beneath a title at level `base`.
pub open spec fn rendered_docs(docs: Seq<char>, base: nat) -> Seq<char> {
    trim_end(doc_lines_text(lines(docs), None, base))
}

/// Render a doc comment for inclusion beneath a title at heading level
/// `base_level`. Embedded headings are shifted down by `base_level` so they nest
/// correctly; hidden doctest lines (`# ...`) inside code blocks are removed and
/// escaped `##` lines are unescaped.
pub fn render_docs(docs: &str, base_level: usize) -> (r: String)
    requires
        base_level <= usize::MAX - 6,
    ensures
        r@ == rendered_docs(docs@, base_level as nat),
{
    let chars = chars_of(docs);
    let ls = split_lines(chars.as_slice());
    let ghost lsv = ls@.map_values(|l: Vec<char>| l@);
    let mut out = String::new();
    let mut fence: Option<Vec<char>> = None;
    let mut i: usize = 0;
    assert(lsv.skip(0) =~= lsv);
    while i < ls.len()
        invariant
            i <= ls@.len(),
            lsv == ls@.map_values(|l: Vec<char>| l@),
            lsv == lines(docs@),
            base_level <= usize::MAX - 6,
            out@ + doc_lines_text(lsv.skip(i as int), opt_chars(fence), base_level as nat)
                == doc_lines_text(lsv, None, base_level as nat),
        decreases ls@.len() - i,
    {
        let line = ls[i].as_slice();
        let ghost lv = line@;
        assert(lv == lsv[i as int]);
        let ghost before = out@;
        let ghost (f2, emitted) = doc_step(opt_chars(fence), lv, base_level as nat);
        let k = ws_prefix(line, 0);
        let ghost t = trim_start(lv);
        assert(lv.skip(0) =~= lv);
        let mut new_fence: Option<Vec<char>> = None;
        let mut keep_fence = false;
        match &fence {
            Some(marker) => {
                if starts_with_at(line, k, marker.as_slice()) {
                    push_line(&mut out, line);
                } else {
                    match unescape_doctest(line) {
                        Some(u) => {
                            push_line(&mut out, u.as_slice());
                            keep_fence = true;
                        },
                        None => {
                            if !is_hidden_doctest(line) {
                                push_line(&mut out, line);
                            }
                            keep_fence = true;
                        },
                    }
                }
            },
            None => {
                match opening_fence(line, k) {
                    Some(m) => {
                        new_fence = Some(m);
                        push_line(&mut out, line);
                    },
                    None => {
                        match heading(line, k) {
                            Some((level, rest)) => {
                                let n = if level + base_level < 6 {
                                    level + base_level
                                } else {
                                    6
                                };
                                push_repeat(&mut out, '#', n);
                                push_char(&mut out, ' ');
                                push_str(&mut out, rest.as_str());
                                push_char(&mut out, '\n');
                            },
                            None => {
                                push_line(&mut out, line);
                            },
                        }
                    },
                }
            },
        }
        if keep_fence {
            new_fence = fence;
        }
        fence = new_fence;
        proof {
            assert(opt_chars(fence) == f2);
            let head = match emitted {
                Some(l) => l.push('\n'),
                None => seq![],
            };
            assert(out@ == before + head);
            assert(lsv.skip(i as int).drop_first() =~= lsv.skip(i + 1));
            assert(lsv.skip(i as int)[0] == lv);
        }
        i += 1;
    }
    let text = chars_of(out.as_str());
    let cut = ws_suffix(text.as_slice(), text.len());
    proof {
        assert(lsv.skip(ls@.len() as int) =~= Seq::<Seq<char>>::empty());
        assert(text@.take(text@.len() as int) =~= text@);
    }
    range_string(text.as_slice(), 0, text.len() - cut)
}

/// Appends `line` and a newline.
fn push_line(out: &mut String, line: &[char])
    ensures
        final(out)@ == old(out)@ + line@.push('\n'),
{
    push_range(out, line, 0, line.len());
    push_char(out, '\n');
    assert(line@.subrange(0, line@.len() as int) =~= line@);
}

/// The fence marker (```` ``` ```` or `~~~`, possibly longer) if `line[lo..]`
/// opens a code block, else `None`.
fn opening_fence(line: &[char], lo: usize) -> (r: Option<Vec<char>>)
    requires
        lo <= line@.len(),
    ensures
        opt_chars(r) == fence_of(line@.skip(lo as int)),
{
    let nb = count_leading(line, lo, '`');
    if nb >= 3 {
        let mut m = Vec::new();
        let mut i: usize = 0;
        while i < nb
            invariant
                i <= nb,
                m@ == repeat('`', i as nat),
            decreases nb - i,
        {
            m.push('`');
            i += 1;
            assert(m@ =~= repeat('`', i as nat));
        }
        return Some(m);
    }
    let nt = count_leading(line, lo, '~');
    if nt >= 3 {
        let mut m = Vec::new();
        let mut i: usize = 0;
        while i < nt
            invariant
                i <= nt,
                m@ == repeat('~', i as nat),
            decreases nt - i,
        {
            m.push('~');
            i += 1;
            assert(m@ =~= repeat('~', i as nat));
        }
        return Some(m);
    }
    None
}

/// A hidden doctest line is `#` alone or `#` followed by a space (rustdoc hides
/// these). `#[attr]` is not hidden.
fn is_hidden_doctest(line: &[char]) -> (b: bool)
    ensures
        b == is_hidden_line(line@),
{
    let k = ws_prefix(line, 0);
    assert(line@.skip(0) =~= line@);
    let n = line.len() - k;
    let ghost t = line@.skip(k as int);
    if n == 1 && line[k] == '#' {
        assert(t =~= seq!['#']);
        return true;
    }
    if n >= 2 && line[k] == '#' && line[k + 1] == ' ' {
        assert(t.take(2) =~= seq!['#', ' ']);
        return true;
    }
    proof {
        if t == seq!['#'] {
            assert(t[0] == '#');
        }
        if starts_with(t, seq!['#', ' ']) {
            assert(t.take(2)[0] == '#' && t.take(2)[1] == ' ');
        }
    }
    false
}

/// `## ...` inside a doctest is an escaped line that should display with one `#`
/// removed. Returns the unescaped line if applicable.
fn unescape_doctest(line: &[char]) -> (r: Option<Vec<char>>)
    ensures
        opt_chars(r) == unescaped(line@),
{
    let k = ws_prefix(line, 0);
    assert(line@.skip(0) =~= line@);
    let ghost t = line@.skip(k as int);
    if line.len() - k >= 2 && line[k] == '#' && line[k + 1] == '#' {
        assert(t.take(2) =~= seq!['#', '#']);
        let mut v: Vec<char> = Vec::new();
        let mut i: usize = 0;
        while i < line.len()
            invariant
                i <= line@.len(),
                k + 2 <= line@.len(),
                v@ == if i <= k {
                    line@.take(i as int)
                } else {
                    line@.take(k as int) + line@.subrange(k + 1, i as int)
                },
            decreases line@.len() - i,
        {
            if i != k {
                v.push(line[i]);
            }
            i += 1;
            assert(v@ =~= if i <= k {
                line@.take(i as int)
            } else {
                line@.take(k as int) + line@.subrange(k + 1, i as int)
            });
        }
        assert(line@.take(k as int) + t.skip(1) =~= line@.take(k as int) + line@.subrange(
            k + 1,
            line@.len() as int,
        ));
        Some(v)
    } else {
        proof {
            if starts_with(t, seq!['#', '#']) {
                assert(t.take(2)[0] == '#' && t.take(2)[1] == '#');
            }
        }
        None
    }
}

/// If `line[lo..]` is an ATX heading (`#`..`######` then a space), return its
/// level and the text after the hashes.
fn heading(line: &[char], lo: usize) -> (r: Option<(usize, String)>)
    requires
        lo <= line@.len(),
    ensures
        r matches Some((level, rest)) ==> heading_of(line@.skip(lo as int)) == Some(
            (level as nat, rest@),
        ),
        r is None ==> heading_of(line@.skip(lo as int)) is None,
        r matches Some((level, _)) ==> level <= 6,
{
    let ghost t = line@.skip(lo as int);
    let level = count_leading(line, lo, '#');
    if 1 <= level && level <= 6 && level < line.len() - lo && line[lo + level] == ' ' {
        assert(t.skip(level as int).take(1) =~= seq![' ']);
        let start = lo + level + 1;
        let k = ws_prefix(line, start);
        assert(t.skip(level + 1) =~= line@.skip(start as int));
        let rest = range_string(line, start + k, line.len());
        assert(trim_start(t.skip(level + 1)) =~= line@.subrange(
            (start + k) as int,
            line@.len() as int,
        ));
        Some((level, rest))
    } else {
        proof {
            if 1 <= level <= 6 && starts_with(t.skip(level as int), seq![' ']) {
                assert(t.skip(level as int).take(1)[0] == ' ');
                assert(t.skip(level as int)[0] == line@[lo + level]);
            }
        }
        None
    }
}

/// Inside a code block opened with `marker`, a line whose trimmed text starts
/// with the marker closes the block: it is kept as it is, and the lines after
/// it are rendered as prose, as if no block had been open.
pub proof fn law_fence_closes(marker: Seq<char>, line: Seq<char>, rest: Seq<Seq<char>>, base: nat)
    requires
        starts_with(trim_start(line), marker),
    ensures
        doc_lines_text(seq![line] + rest, Some(marker), base) == line.push('\n') + doc_lines_text(rest, None, base),
{
    assert((seq![line] + rest).drop_first() =~= rest);
    assert((seq![line] + rest)[0] == line);
}

/// Outside a code block no line is dropped: every line yields exactly one
/// line of output, a heading of level `l` becoming one of level
/// `min(l + base, 6)` with the same text, any other line kept as it is.
pub proof fn law_prose_line(line: Seq<char>, rest: Seq<Seq<char>>, base: nat)
    requires
        fence_of(trim_start(line)) is None,
    ensures
        doc_lines_text(seq![line] + rest, None, base) == match heading_of(trim_start(line)) {
            Some((level, text)) => repeat('#', if level + base < 6 {
                level + base
            } else {
                6
            }) + seq![' '] + text + seq!['\n'],
            None => line.push('\n'),
        } + doc_lines_text(rest, None, base),
{
    assert((seq![line] + rest).drop_first() =~= rest);
    assert((seq![line] + rest)[0] == line);
    match heading_of(trim_start(line)) {
        Some((level, text)) => {
            let n: nat = if level + base < 6 {
                level + base
            } else {
                6
            };
            assert(shifted_heading(level, base, text).push('\n') =~= repeat('#', n) + seq![' '] + text + seq!['\n']);
        },
        None => {},
    }
}

} // verus!
