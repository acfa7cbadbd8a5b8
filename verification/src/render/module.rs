//! Render a module's markdown file: its docs, then its children grouped by kind
//! (submodules, types, traits, functions, constants, type aliases, macros) with
//! inline items rendered in place and file-owning items linked.

use vstd::prelude::*;

use crate::model::reachability::paths_view;
use crate::model::rustdoc::{lookup, Id, Item, ItemEnum, Static};
use crate::model::{path_module, path_name, DocItem, DocModel, ItemPath};
use crate::render::doc_text::rendered_docs;
use crate::render::links::{link_of, note_block, opt_text, push_note};
use crate::render::signature::{function_signature, function_text, generics_decl, generics_text, type_str, type_text};
use crate::render::sorting::{
    deref_docs, docs_by_name, entries_increasing, entries_view, entry_view, insert_entry,
    lemma_sorted_distinct, sort_docs_by_name, sorted_distinct, Entry,
};
use crate::render::type_::{entry_list_text, file_text, lemma_same_elements_empty, push_entry_list, src_block};
use crate::render::{finish, item_docs_text, push_item_docs, Ctx};
use crate::text::{chars_of, copy_str, join, join_strings, lines, push_char, push_str, split_lines, texts, trim, trim_end};

verus! {

/// The section a module child is listed in: modules (0), types (1), traits
/// (2), functions (3), constants and statics (4), type aliases (5), macros
/// (6).
pub open spec fn child_group(inner: ItemEnum) -> Option<nat> {
    match inner {
        ItemEnum::Module(_) => Some(0),
        ItemEnum::Struct(_) | ItemEnum::Enum(_) | ItemEnum::Union(_) => Some(1),
        ItemEnum::Trait(_) | ItemEnum::TraitAlias(_) => Some(2),
        ItemEnum::Function(_) => Some(3),
        ItemEnum::Constant { .. } | ItemEnum::Static(_) => Some(4),
        ItemEnum::TypeAlias(_) => Some(5),
        ItemEnum::Macro(_) | ItemEnum::ProcMacro(_) => Some(6),
        _ => None,
    }
}

/// Whether documented item `it` is placed canonically in module `module`
/// (and is not the module itself) and belongs to section `g`.
pub open spec fn in_section(m: DocModel, module: DocItem, it: DocItem, g: nat) -> bool {
    &&& it.id != module.id
    &&& path_module(it.canonical@) == module.canonical@
    &&& match lookup(m.krate.index@, it.id) {
        Some(raw) => child_group(raw.inner) == Some(g),
        None => false,
    }
}

/// The children of `module` in section `g`, in model order.
pub open spec fn section_children(m: DocModel, module: DocItem, items: Seq<DocItem>, g: nat) -> Seq<DocItem>
    decreases items.len(),
{
    if items.len() == 0 {
        seq![]
    } else {
        let r = section_children(m, module, items.drop_last(), g);
        if in_section(m, module, items.last(), g) {
            r.push(items.last())
        } else {
            r
        }
    }
}

/// The first line of `ls` that is not blank, trimmed.
pub open spec fn first_nonblank(ls: Seq<Seq<char>>) -> Option<Seq<char>>
    decreases ls.len(),
{
    if ls.len() == 0 {
        None
    } else if trim(ls[0]).len() > 0 {
        Some(trim(ls[0]))
    } else {
        first_nonblank(ls.drop_first())
    }
}

/// First non-empty line of an item's docs, for use as a one-line summary.
pub open spec fn short_desc_of(m: DocModel, id: Id) -> Option<Seq<char>> {
    match lookup(m.krate.index@, id) {
        Some(raw) => match raw.docs {
            Some(d) => first_nonblank(lines(d@)),
            None => None,
        },
        None => None,
    }
}

/// A bullet linking a file-owning child, with its summary.
pub open spec fn link_line(m: DocModel, file: Seq<char>, it: DocItem) -> Seq<char> {
    "- [`"@ + it.name@ + "`]("@ + match link_of(m, file, it.id) {
        Some(l) => l,
        None => it.name@,
    } + seq![')'] + match short_desc_of(m, it.id) {
        Some(d) => " — "@ + d,
        None => seq![],
    } + seq!['\n']
}

/// The bullets, in order.
pub open spec fn link_lines(m: DocModel, file: Seq<char>, items: Seq<DocItem>) -> Seq<char>
    decreases items.len(),
{
    if items.len() == 0 {
        seq![]
    } else {
        link_lines(m, file, items.drop_last()) + link_line(m, file, items.last())
    }
}

/// A bulleted list linking to file-owning children; nothing when empty.
pub open spec fn link_section_text(m: DocModel, file: Seq<char>, title: Seq<char>, items: Seq<DocItem>) -> Seq<char> {
    if items.len() == 0 {
        seq![]
    } else {
        "## "@ + title + "\n\n"@ + link_lines(m, file, items) + seq!['\n']
    }
}

/// The code-block signature for an inline item.
pub open spec fn inline_sig(name: Seq<char>, inner: ItemEnum) -> Option<Seq<char>> {
    match inner {
        ItemEnum::Function(func) => Some("pub "@ + function_text(name, func)),
        ItemEnum::Constant { type_, .. } => Some("pub const "@ + name + ": "@ + type_text(type_)),
        ItemEnum::Static(st) => Some(
            "pub static "@ + if st.is_mutable {
                "mut "@
            } else {
                seq![]
            } + name + ": "@ + type_text(st.type_),
        ),
        ItemEnum::TypeAlias(alias) => Some(
            "pub type "@ + name + generics_text(alias.generics) + " = "@ + type_text(alias.type_) + seq![';'],
        ),
        ItemEnum::Macro(def) => Some(def@),
        _ => None,
    }
}

/// An inline item rendered in place: heading, reexport note, signature,
/// docs. Nothing when the index lacks it.
pub open spec fn inline_entry(m: DocModel, file: Seq<char>, it: DocItem) -> Seq<char> {
    match lookup(m.krate.index@, it.id) {
        None => seq![],
        Some(raw) => "### `"@ + it.name@ + "`\n\n"@ + note_block(m, it.id) + match inline_sig(it.name@, raw.inner) {
            Some(code) => "```rust\n"@ + code + "\n```\n\n"@,
            None => seq![],
        } + item_docs_text(m, file, raw, 1),
    }
}

/// The inline entries, in order.
pub open spec fn inline_entries(m: DocModel, file: Seq<char>, items: Seq<DocItem>) -> Seq<char>
    decreases items.len(),
{
    if items.len() == 0 {
        seq![]
    } else {
        inline_entries(m, file, items.drop_last()) + inline_entry(m, file, items.last())
    }
}

/// A section rendering inline items in place; nothing when empty.
pub open spec fn inline_section_text(m: DocModel, file: Seq<char>, title: Seq<char>, items: Seq<DocItem>) -> Seq<char> {
    if items.len() == 0 {
        seq![]
    } else {
        "## "@ + title + "\n\n"@ + inline_entries(m, file, items)
    }
}

/// The stubs for the alternate paths of `it` that lie in module `p`.
pub open spec fn alt_stubs(m: DocModel, file: Seq<char>, p: Seq<Seq<char>>, it: DocItem, alts: Seq<Seq<Seq<char>>>) -> Seq<Entry>
    decreases alts.len(),
{
    if alts.len() == 0 {
        seq![]
    } else {
        let r = alt_stubs(m, file, p, it, alts.drop_last());
        if path_module(alts.last()) == p {
            match link_of(m, file, it.id) {
                Some(l) => r.push((path_name(alts.last()), Some(l))),
                None => r,
            }
        } else {
            r
        }
    }
}

/// The stubs of all items for module `p`, in model order.
pub open spec fn stub_entries(m: DocModel, file: Seq<char>, p: Seq<Seq<char>>, items: Seq<DocItem>) -> Seq<Entry>
    decreases items.len(),
{
    if items.len() == 0 {
        seq![]
    } else {
        stub_entries(m, file, p, items.drop_last()) + alt_stubs(m, file, p, items.last(), paths_view(items.last().alternates@))
    }
}

/// The `Reexports` section: items reexported into this module whose canonical
/// home is elsewhere; nothing when there are none.
pub open spec fn reexport_section_text(m: DocModel, file: Seq<char>, p: Seq<Seq<char>>) -> Seq<char> {
    let es = stub_entries(m, file, p, m.items@);
    if es.len() == 0 {
        seq![]
    } else {
        "## Reexports\n\n"@ + entry_list_text(sorted_distinct(es)) + seq!['\n']
    }
}

/// The children of `module` in section `g`, sorted by name.
pub open spec fn sorted_section(m: DocModel, module: DocItem, g: nat) -> Seq<DocItem> {
    docs_by_name(section_children(m, module, m.items@, g))
}

/// All sections of a module file.
#[verifier::opaque]
pub open spec fn sections_text(m: DocModel, file: Seq<char>, module: DocItem) -> Seq<char> {
    link_section_text(m, file, "Modules"@, sorted_section(m, module, 0))
        + link_section_text(m, file, "Types"@, sorted_section(m, module, 1))
        + link_section_text(m, file, "Traits"@, sorted_section(m, module, 2))
        + inline_section_text(m, file, "Functions"@, sorted_section(m, module, 3))
        + inline_section_text(m, file, "Constants"@, sorted_section(m, module, 4))
        + inline_section_text(m, file, "Type Aliases"@, sorted_section(m, module, 5))
        + inline_section_text(m, file, "Macros"@, sorted_section(m, module, 6))
        + reexport_section_text(m, file, module.canonical@)
}

/// A module's markdown file: title (`Crate` for the root), reexport note,
/// source reference and docs, its sections, then its reexports.
pub open spec fn module_file_text(m: DocModel, module: DocItem) -> Seq<char> {
    let file = file_text(module);
    trim_end(
        if module.canonical@.len() == 1 {
            "# Crate `"@
        } else {
            "# Module `"@
        } + join(module.canonical@, "::"@) + "`\n\n"@ + note_block(m, module.id) + match lookup(
            m.krate.index@,
            module.id,
        ) {
            Some(raw) => src_block(raw) + item_docs_text(m, file, raw, 1),
            None => seq![],
        } + sections_text(m, file, module),
    ).push('\n')
}


// ---------------------------------------------------------------------------
// Rendering

/// `s` without leading and trailing whitespace.
fn trimmed(s: &[char]) -> (r: String)
    ensures
        r@ == trim(s@),
{
    let lo = crate::text::ws_prefix(s, 0);
    let tail = crate::text::ws_suffix(s, s.len());
    proof {
        assert(s@.skip(0) =~= s@);
        assert(s@.take(s@.len() as int) =~= s@);
        crate::text::lemma_trim_bounds(s@);
        crate::text::lemma_trim_range(s@, lo as int, tail as int);
    }
    if lo >= s.len() - tail {
        String::new()
    } else {
        crate::text::range_string(s, lo, s.len() - tail)
    }
}

/// First non-empty line of the item's docs, for use as a one-line summary.
fn short_desc(ctx: &Ctx, id: Id) -> (r: Option<String>)
    ensures
        opt_text(r) == short_desc_of(*ctx.model, id),
{
    let raw = match ctx.raw(id) {
        Some(r) => r,
        None => {
            return None;
        },
    };
    let docs = match &raw.docs {
        Some(d) => d,
        None => {
            return None;
        },
    };
    let cs = chars_of(docs.as_str());
    let ls = split_lines(cs.as_slice());
    let ghost lv = ls@.map_values(|l: Vec<char>| l@);
    let mut i: usize = 0;
    assert(lv.skip(0) =~= lv);
    assert(short_desc_of(*ctx.model, id) == first_nonblank(lv));
    while i < ls.len()
        invariant
            i <= ls@.len(),
            lv == ls@.map_values(|l: Vec<char>| l@),
            short_desc_of(*ctx.model, id) == first_nonblank(lv),
            first_nonblank(lv) == first_nonblank(lv.skip(i as int)),
        decreases ls@.len() - i,
    {
        assert(lv.skip(i as int)[0] == ls@[i as int]@);
        let t = trimmed(ls[i].as_slice());
        if !t.as_str().is_empty() {
            return Some(t);
        }
        assert(lv.skip(i as int).drop_first() =~= lv.skip(i + 1));
        i += 1;
    }
    None
}

/// The section an item kind is listed in.
fn group_of(inner: &ItemEnum) -> (g: Option<u8>)
    ensures
        match g {
            Some(k) => child_group(*inner) == Some(k as nat),
            None => child_group(*inner) is None,
        },
{
    match inner {
        ItemEnum::Module(_) => Some(0),
        ItemEnum::Struct(_) | ItemEnum::Enum(_) | ItemEnum::Union(_) => Some(1),
        ItemEnum::Trait(_) | ItemEnum::TraitAlias(_) => Some(2),
        ItemEnum::Function(_) => Some(3),
        ItemEnum::Constant { .. } | ItemEnum::Static(_) => Some(4),
        ItemEnum::TypeAlias(_) => Some(5),
        ItemEnum::Macro(_) | ItemEnum::ProcMacro(_) => Some(6),
        _ => None,
    }
}

/// The children of `module` in section `g`, sorted by name.
fn section<'a>(ctx: &Ctx<'a>, module: &DocItem, g: u8) -> (r: Vec<&'a DocItem>)
    ensures
        deref_docs(r@) == sorted_section(*ctx.model, *module, g as nat),
{
    let items = &ctx.model.items;
    let ghost m = *ctx.model;
    let mut out: Vec<&'a DocItem> = Vec::new();
    let mut i: usize = 0;
    while i < items.len()
        invariant
            i <= items@.len(),
            items == &ctx.model.items,
            m == *ctx.model,
            deref_docs(out@) == section_children(m, *module, items@.take(i as int), g as nat),
        decreases items@.len() - i,
    {
        assert(items@.take(i + 1).drop_last() =~= items@.take(i as int));
        assert(items@.take(i + 1).last() == items@[i as int]);
        let child = &items[i];
        let ghost before = deref_docs(out@);
        if child.id != module.id && crate::model::segments_equal(child.canonical.module(), module.canonical.0.as_slice()) {
            if let Some(raw) = ctx.raw(child.id) {
                if let Some(k) = group_of(&raw.inner) {
                    if k == g {
                        out.push(child);
                        assert(deref_docs(out@) =~= before.push(*child));
                    }
                }
            }
        }
        i += 1;
    }
    assert(items@.take(items@.len() as int) =~= items@);
    sort_docs_by_name(out)
}

/// A bulleted list linking to file-owning children, each with a short description.
fn link_section(ctx: &Ctx, out: &mut String, file: &str, title: &str, items: &Vec<&DocItem>)
    requires
        ctx.wf(),
    ensures
        final(out)@ == old(out)@ + link_section_text(*ctx.model, file@, title@, deref_docs(items@)),
{
    if items.len() == 0 {
        return;
    }
    let ghost start = out@;
    let ghost iv = deref_docs(items@);
    push_str(out, "## ");
    push_str(out, title);
    push_str(out, "\n\n");
    let ghost head = out@;
    let mut k: usize = 0;
    while k < items.len()
        invariant
            k <= items@.len(),
            ctx.wf(),
            iv == deref_docs(items@),
            out@ == head + link_lines(*ctx.model, file@, iv.take(k as int)),
        decreases items@.len() - k,
    {
        assert(iv.take(k + 1).drop_last() =~= iv.take(k as int));
        assert(iv.take(k + 1).last() == *items@[k as int]);
        let item = items[k];
        let ghost before = out@;
        push_str(out, "- [`");
        push_str(out, item.name.as_str());
        push_str(out, "`](");
        match ctx.link(file, item.id) {
            Some(l) => push_str(out, l.as_str()),
            None => push_str(out, item.name.as_str()),
        }
        push_char(out, ')');
        if let Some(d) = short_desc(ctx, item.id) {
            push_str(out, " — ");
            push_str(out, d.as_str());
        }
        push_char(out, '\n');
        assert(out@ =~= before + link_line(*ctx.model, file@, *item));
        k += 1;
    }
    assert(iv.take(items@.len() as int) =~= iv);
    push_char(out, '\n');
    assert(out@ =~= start + link_section_text(*ctx.model, file@, title@, iv));
}

/// The code-block signature for an inline item.
fn inline_signature(name: &str, raw: &Item) -> (r: Option<String>)
    ensures
        opt_text(r) == inline_sig(name@, raw.inner),
{
    match &raw.inner {
        ItemEnum::Function(func) => {
            let mut s = copy_str("pub ");
            let f = function_signature(name, func);
            push_str(&mut s, f.as_str());
            Some(s)
        },
        ItemEnum::Constant { type_, .. } => {
            let mut s = copy_str("pub const ");
            push_str(&mut s, name);
            push_str(&mut s, ": ");
            let t = type_str(type_);
            push_str(&mut s, t.as_str());
            Some(s)
        },
        ItemEnum::Static(st) => {
            let mut s = copy_str("pub static ");
            if st.is_mutable {
                push_str(&mut s, "mut ");
            }
            push_str(&mut s, name);
            push_str(&mut s, ": ");
            let t = type_str(&st.type_);
            push_str(&mut s, t.as_str());
            Some(s)
        },
        ItemEnum::TypeAlias(alias) => {
            let mut s = copy_str("pub type ");
            push_str(&mut s, name);
            let g = generics_decl(&alias.generics);
            push_str(&mut s, g.as_str());
            push_str(&mut s, " = ");
            let t = type_str(&alias.type_);
            push_str(&mut s, t.as_str());
            push_char(&mut s, ';');
            Some(s)
        },
        ItemEnum::Macro(def) => Some(copy_str(def.as_str())),
        _ => None,
    }
}

/// Appends one inline item rendered in place.
fn push_inline(ctx: &Ctx, out: &mut String, file: &str, item: &DocItem)
    requires
        ctx.wf(),
    ensures
        final(out)@ == old(out)@ + inline_entry(*ctx.model, file@, *item),
{
    let raw = match ctx.raw(item.id) {
        Some(r) => r,
        None => {
            return;
        },
    };
    let ghost start = out@;
    push_str(out, "### `");
    push_str(out, item.name.as_str());
    push_str(out, "`\n\n");
    push_note(ctx, out, item.id);
    if let Some(code) = inline_signature(item.name.as_str(), raw) {
        push_str(out, "```rust\n");
        push_str(out, code.as_str());
        push_str(out, "\n```\n\n");
    }
    push_docs(ctx, out, file, raw);
    assert(out@ =~= start + inline_entry(*ctx.model, file@, *item));
}

/// A section that renders inline items (functions, constants, …) in place.
fn inline_section(ctx: &Ctx, out: &mut String, file: &str, title: &str, items: &Vec<&DocItem>)
    requires
        ctx.wf(),
    ensures
        final(out)@ == old(out)@ + inline_section_text(*ctx.model, file@, title@, deref_docs(items@)),
{
    if items.len() == 0 {
        return;
    }
    let ghost start = out@;
    let ghost iv = deref_docs(items@);
    push_str(out, "## ");
    push_str(out, title);
    push_str(out, "\n\n");
    let ghost head = out@;
    let mut k: usize = 0;
    while k < items.len()
        invariant
            k <= items@.len(),
            ctx.wf(),
            iv == deref_docs(items@),
            out@ == head + inline_entries(*ctx.model, file@, iv.take(k as int)),
        decreases items@.len() - k,
    {
        assert(iv.take(k + 1).drop_last() =~= iv.take(k as int));
        assert(iv.take(k + 1).last() == *items@[k as int]);
        push_inline(ctx, out, file, items[k]);
        k += 1;
    }
    assert(iv.take(items@.len() as int) =~= iv);
    assert(out@ =~= start + inline_section_text(*ctx.model, file@, title@, iv));
}

/// List items reexported into this module whose canonical home is elsewhere.
fn reexport_section(ctx: &Ctx, out: &mut String, file: &str, self_path: &Vec<String>)
    requires
        ctx.wf(),
    ensures
        final(out)@ == old(out)@ + reexport_section_text(*ctx.model, file@, texts(self_path@)),
{
    let ghost m = *ctx.model;
    let ghost p = texts(self_path@);
    let items = &ctx.model.items;
    let mut stubs: Vec<(String, Option<String>)> = Vec::new();
    let mut i: usize = 0;
    while i < items.len()
        invariant
            i <= items@.len(),
            ctx.wf(),
            items == &ctx.model.items,
            m == *ctx.model,
            p == texts(self_path@),
            entries_increasing(entries_view(stubs@)),
            forall|x: Entry| entries_view(stubs@).contains(x) <==> stub_entries(m, file@, p, items@.take(i as int)).contains(x),
        decreases items@.len() - i,
    {
        assert(items@.take(i + 1).drop_last() =~= items@.take(i as int));
        assert(items@.take(i + 1).last() == items@[i as int]);
        let item = &items[i];
        let ghost done = stub_entries(m, file@, p, items@.take(i as int));
        let ghost alts = paths_view(item.alternates@);
        let mut j: usize = 0;
        while j < item.alternates.len()
            invariant
                j <= item.alternates@.len(),
                ctx.wf(),
                m == *ctx.model,
                p == texts(self_path@),
                alts == paths_view(item.alternates@),
                entries_increasing(entries_view(stubs@)),
                forall|x: Entry| entries_view(stubs@).contains(x) <==> (done + alt_stubs(m, file@, p, *item, alts.take(j as int))).contains(x),
            decreases item.alternates@.len() - j,
        {
            assert(alts.take(j + 1).drop_last() =~= alts.take(j as int));
            assert(alts.take(j + 1).last() == item.alternates@[j as int]@);
            let alt = &item.alternates[j];
            let ghost prev = done + alt_stubs(m, file@, p, *item, alts.take(j as int));
            if crate::model::segments_equal(alt.module(), self_path.as_slice()) {
                if let Some(link) = ctx.link(file, item.id) {
                    let e = (copy_str(alt.name()), Some(link));
                    insert_entry(&mut stubs, e);
                    let ghost now = done + alt_stubs(m, file@, p, *item, alts.take(j + 1));
                    assert(now =~= prev.push(entry_view(e)));
                    assert forall|x: Entry| entries_view(stubs@).contains(x) <==> now.contains(x) by {
                        if x == entry_view(e) {
                            assert(now[now.len() - 1] == x);
                        }
                        if now.contains(x) && x != entry_view(e) {
                            let k = choose|k: int| 0 <= k < now.len() && now[k] == x;
                            assert(prev[k] == x);
                        }
                        if prev.contains(x) {
                            let k = choose|k: int| 0 <= k < prev.len() && prev[k] == x;
                            assert(now[k] == x);
                        }
                    }
                } else {
                    assert(done + alt_stubs(m, file@, p, *item, alts.take(j + 1)) =~= prev);
                }
            } else {
                assert(done + alt_stubs(m, file@, p, *item, alts.take(j + 1)) =~= prev);
            }
            j += 1;
        }
        assert(alts.take(item.alternates@.len() as int) =~= alts);
        assert(stub_entries(m, file@, p, items@.take(i + 1)) == done + alt_stubs(m, file@, p, *item, alts));
        i += 1;
    }
    assert(items@.take(items@.len() as int) =~= items@);
    let ghost all = stub_entries(m, file@, p, m.items@);
    proof {
        lemma_sorted_distinct(entries_view(stubs@), all);
        lemma_same_elements_empty(entries_view(stubs@), all);
    }
    if stubs.len() == 0 {
        return;
    }
    let ghost start = out@;
    push_str(out, "## Reexports\n\n");
    push_entry_list(out, &stubs);
    push_char(out, '\n');
    assert(out@ =~= start + reexport_section_text(m, file@, p));
}

/// Appends an item's docs and link definitions.
fn push_docs(ctx: &Ctx, out: &mut String, file: &str, raw: &Item)
    requires
        ctx.wf(),
    ensures
        final(out)@ == old(out)@ + item_docs_text(*ctx.model, file@, *raw, 1),
{
    push_item_docs(ctx, out, file, raw, 1);
}

/// All sections of a module file.
#[verifier::rlimit(40)]
fn render_sections(ctx: &Ctx, out: &mut String, file: &str, module: &DocItem)
    requires
        ctx.wf(),
    ensures
        final(out)@ == old(out)@ + sections_text(*ctx.model, file@, *module),
{
    reveal(sections_text);
    let ghost start = out@;
    let submodules = section(ctx, module, 0);
    let types = section(ctx, module, 1);
    let traits = section(ctx, module, 2);
    let functions = section(ctx, module, 3);
    let constants = section(ctx, module, 4);
    let type_aliases = section(ctx, module, 5);
    let macros = section(ctx, module, 6);
    link_section(ctx, out, file, "Modules", &submodules);
    link_section(ctx, out, file, "Types", &types);
    link_section(ctx, out, file, "Traits", &traits);
    inline_section(ctx, out, file, "Functions", &functions);
    inline_section(ctx, out, file, "Constants", &constants);
    inline_section(ctx, out, file, "Type Aliases", &type_aliases);
    inline_section(ctx, out, file, "Macros", &macros);
    reexport_section(ctx, out, file, &module.canonical.0);
    assert(out@ =~= start + sections_text(*ctx.model, file@, *module));
}

/// Render a module's markdown file.
pub fn render(ctx: &Ctx, module: &DocItem) -> (r: String)
    requires
        ctx.wf(),
    ensures
        r@ == module_file_text(*ctx.model, *module),
{
    let file: &str = match &module.file {
        Some(f) => f.as_str(),
        None => {
            proof {
                reveal_strlit("");
            }
            ""
        },
    };
    assert(file@ == file_text(*module));
    let mut out = if module.canonical.0.len() == 1 {
        copy_str("# Crate `")
    } else {
        copy_str("# Module `")
    };
    let path = join_strings(&module.canonical.0, "::");
    push_str(&mut out, path.as_str());
    push_str(&mut out, "`\n\n");
    push_note(ctx, &mut out, module.id);
    // Source reference and docs.
    if let Some(raw) = ctx.raw(module.id) {
        if let Some(src) = ctx.source_ref(raw) {
            push_str(&mut out, src.as_str());
            push_str(&mut out, "\n\n");
        }
        push_docs(ctx, &mut out, file, raw);
    }
    render_sections(ctx, &mut out, file, module);
    let ghost m = *ctx.model;
    assert(out@ =~= if module.canonical@.len() == 1 {
        "# Crate `"@
    } else {
        "# Module `"@
    } + join(module.canonical@, "::"@) + "`\n\n"@ + note_block(m, module.id) + match lookup(
        m.krate.index@,
        module.id,
    ) {
        Some(raw) => src_block(raw) + item_docs_text(m, file@, raw, 1),
        None => seq![],
    } + sections_text(m, file@, *module));
    finish(out)
}

/// A static's inline signature is its Rust declaration: `pub static mut `
/// for a mutable static, `pub static ` otherwise, then the name, `: ` and the
/// type.
pub proof fn law_static_signature(name: Seq<char>, st: Static)
    ensures
        inline_sig(name, ItemEnum::Static(st)) == Some(
            if st.is_mutable {
                "pub static mut "@
            } else {
                "pub static "@
            } + name + ": "@ + type_text(st.type_),
        ),
{
    reveal_strlit("pub static ");
    reveal_strlit("mut ");
    reveal_strlit("pub static mut ");
    let s = if st.is_mutable {
        "mut "@
    } else {
        seq![]
    };
    if st.is_mutable {
        assert("pub static "@ + s + name + ": "@ + type_text(st.type_) =~= "pub static mut "@ + name + ": "@ + type_text(st.type_));
    } else {
        assert("pub static "@ + s + name + ": "@ + type_text(st.type_) =~= "pub static "@ + name + ": "@ + type_text(st.type_));
    }
}

} // verus!
