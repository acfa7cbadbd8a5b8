//! Shared rendering of associated items (methods, associated constants, and
//! associated types) used by both the type and trait renderers.

use vstd::prelude::*;

use crate::model::rustdoc::{Item, ItemEnum};
use crate::render::signature::{bounds_parts, bounds_str, function_signature, function_text, type_str, type_text};
use crate::render::{item_docs_text, push_item_docs, Ctx};
use crate::text::{chars_of, copy_str, join, leading_count, push_str};

verus! {

/// The code-block signature of an associated item: `[pub ]fn ...` for a
/// method, `const Name: T[ = v]` for a constant, `type Name[: Bounds][ = T]`
/// for a type; `None` for other kinds.
pub open spec fn assoc_sig(name: Seq<char>, inner: ItemEnum, pub_kw: bool) -> Option<Seq<char>> {
    match inner {
        ItemEnum::Function(func) => Some(
            if pub_kw {
                "pub "@
            } else {
                seq![]
            } + function_text(name, func),
        ),
        ItemEnum::AssocConst { type_, value } => Some(
            "const "@ + name + ": "@ + type_text(type_) + match value {
                Some(v) => " = "@ + v@,
                None => seq![],
            },
        ),
        ItemEnum::AssocType { bounds, type_, .. } => Some(
            "type "@ + name + if bounds@.len() > 0 {
                ": "@ + join(bounds_parts(bounds@), " + "@)
            } else {
                seq![]
            } + match type_ {
                Some(d) => " = "@ + type_text(d),
                None => seq![],
            },
        ),
        _ => None,
    }
}

/// One associated item as a subsection under `heading`: the heading with the
/// name in code, a signature code block, then its docs (headings shifted
/// below the heading's level) and link definitions. Nothing for an unnamed
/// item or one without a signature.
pub open spec fn assoc_text(m: crate::model::DocModel, file: Seq<char>, raw: Item, heading: Seq<char>, pub_kw: bool) -> Seq<char> {
    match raw.name {
        None => seq![],
        Some(n) => match assoc_sig(n@, raw.inner, pub_kw) {
            None => seq![],
            Some(code) => heading + " `"@ + n@ + "`\n\n"@ + "```rust\n"@ + code + "\n```\n\n"@
                + item_docs_text(m, file, raw, leading_count(heading, '#')),
        },
    }
}

/// A run of leading copies of a character is no longer than the text.
pub proof fn lemma_leading_count_le(s: Seq<char>, c: char)
    ensures
        leading_count(s, c) <= s.len(),
    decreases s.len(),
{
    if s.len() > 0 && s[0] == c {
        lemma_leading_count_le(s.drop_first(), c);
    }
}

/// Render one associated item as a `heading`-level subsection: a signature code
/// block followed by its docs. `pub_kw` controls whether methods are prefixed
/// with `pub` (true for inherent impls, false for trait items).
pub fn render(ctx: &Ctx, out: &mut String, file: &str, raw: &Item, heading: &str, pub_kw: bool)
    requires
        ctx.wf(),
        leading_count(heading@, '#') <= usize::MAX - 6,
    ensures
        final(out)@ == old(out)@ + assoc_text(*ctx.model, file@, *raw, heading@, pub_kw),
{
    let name = match &raw.name {
        Some(n) => n,
        None => {
            return;
        },
    };
    let code = match signature(name.as_str(), raw, pub_kw) {
        Some(c) => c,
        None => {
            return;
        },
    };
    let ghost start = out@;
    push_str(out, heading);
    push_str(out, " `");
    push_str(out, name.as_str());
    push_str(out, "`\n\n");
    push_str(out, "```rust\n");
    push_str(out, code.as_str());
    push_str(out, "\n```\n\n");
    let hc = chars_of(heading);
    let level = crate::text::count_leading(hc.as_slice(), 0, '#');
    assert(hc@.skip(0) =~= hc@);
    push_item_docs(ctx, out, file, raw, level);
    assert(out@ =~= start + assoc_text(*ctx.model, file@, *raw, heading@, pub_kw));
}

/// The signature of an associated item.
fn signature(name: &str, raw: &Item, pub_kw: bool) -> (r: Option<String>)
    ensures
        match r {
            Some(s) => assoc_sig(name@, raw.inner, pub_kw) == Some(s@),
            None => assoc_sig(name@, raw.inner, pub_kw) is None,
        },
{
    match &raw.inner {
        ItemEnum::Function(func) => {
            let mut s = if pub_kw {
                copy_str("pub ")
            } else {
                String::new()
            };
            let f = function_signature(name, func);
            push_str(&mut s, f.as_str());
            Some(s)
        },
        ItemEnum::AssocConst { type_, value } => {
            let mut s = copy_str("const ");
            push_str(&mut s, name);
            push_str(&mut s, ": ");
            let t = type_str(type_);
            push_str(&mut s, t.as_str());
            if let Some(v) = value {
                push_str(&mut s, " = ");
                push_str(&mut s, v.as_str());
            }
            Some(s)
        },
        ItemEnum::AssocType { bounds, type_, .. } => {
            let mut s = copy_str("type ");
            push_str(&mut s, name);
            if bounds.len() > 0 {
                push_str(&mut s, ": ");
                let b = bounds_str(bounds);
                push_str(&mut s, b.as_str());
            }
            if let Some(default) = type_ {
                push_str(&mut s, " = ");
                let t = type_str(default);
                push_str(&mut s, t.as_str());
            }
            Some(s)
        },
        _ => None,
    }
}

} // verus!
