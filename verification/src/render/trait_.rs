//! Render a trait's markdown file: its declaration (supertraits, generics), its
//! associated items, and the list of in-crate implementors.

use vstd::prelude::*;

use crate::model::rustdoc::{lookup, Id, Item, ItemEnum, Trait, Type};
use crate::model::{DocItem, DocModel};
use crate::render::links::{link_of, note_block, opt_text, push_note};
use crate::render::signature::{bounds_parts, bounds_str, generics_decl, generics_text, type_str, type_text, where_clause, where_text};
use crate::render::sorting::{
    by_name, deref_items, entries_increasing, entries_view, entry_view, insert_entry,
    lemma_sorted_distinct, sort_items_by_name, sorted_distinct, Entry,
};
use crate::render::type_::{
    assoc_list_text, entry_list_text, file_text, lemma_same_elements_empty, push_assoc_list,
    push_entry_list, shown_impl, src_block,
};
use crate::render::{finish, item_docs_text, push_item_docs, Ctx};
use crate::text::{copy_str, join, join_strings, push_char, push_str, trim_end};

verus! {

/// The `pub [unsafe ]trait Name<..>[: Supertraits][ where ..]` header line.
pub open spec fn declaration_text(name: Seq<char>, tr: Trait) -> Seq<char> {
    "pub "@ + if tr.is_unsafe {
        "unsafe "@
    } else {
        seq![]
    } + "trait "@ + name + generics_text(tr.generics) + if tr.bounds@.len() > 0 {
        ": "@ + join(bounds_parts(tr.bounds@), " + "@)
    } else {
        seq![]
    } + where_text(tr.generics)
}

/// Which group a trait member belongs to: associated types (0), associated
/// constants (1) or methods (2).
pub open spec fn member_group(inner: ItemEnum) -> Option<nat> {
    match inner {
        ItemEnum::AssocType { .. } => Some(0),
        ItemEnum::AssocConst { .. } => Some(1),
        ItemEnum::Function(_) => Some(2),
        _ => None,
    }
}

/// The members among `ids` in group `g`, in order.
pub open spec fn members(m: DocModel, ids: Seq<Id>, g: nat) -> Seq<Item>
    decreases ids.len(),
{
    if ids.len() == 0 {
        seq![]
    } else {
        let r = members(m, ids.drop_last(), g);
        match lookup(m.krate.index@, ids.last()) {
            Some(it) => if member_group(it.inner) == Some(g) {
                r.push(it)
            } else {
                r
            },
            None => r,
        }
    }
}

/// A section of associated items, sorted by name; nothing when empty.
#[verifier::opaque]
pub open spec fn assoc_section_text(m: DocModel, file: Seq<char>, title: Seq<char>, items: Seq<Item>) -> Seq<char> {
    if items.len() == 0 {
        seq![]
    } else {
        "## "@ + title + "\n\n"@ + assoc_list_text(m, file, by_name(items), "###"@, false)
    }
}

/// The link to the documented item underlying a type, if any.
pub open spec fn type_link_of(m: DocModel, file: Seq<char>, ty: Type) -> Option<Seq<char>> {
    match ty {
        Type::ResolvedPath(p) => link_of(m, file, p.id),
        _ => None,
    }
}

/// The implementing types of the shown impls among `ids`, with links.
pub open spec fn implementor_entries(m: DocModel, file: Seq<char>, ids: Seq<Id>) -> Seq<Entry>
    decreases ids.len(),
{
    if ids.len() == 0 {
        seq![]
    } else {
        let r = implementor_entries(m, file, ids.drop_last());
        match shown_impl(m, ids.last()) {
            Some(im) => r.push((type_text(im.for_), type_link_of(m, file, im.for_))),
            None => r,
        }
    }
}

/// The `Implementors` section; nothing when there are none.
#[verifier::opaque]
pub open spec fn implementors_text(m: DocModel, file: Seq<char>, tr: Trait) -> Seq<char> {
    let es = implementor_entries(m, file, tr.implementations@);
    if es.len() == 0 {
        seq![]
    } else {
        "## Implementors\n\n"@ + entry_list_text(sorted_distinct(es)) + seq!['\n']
    }
}

/// A trait's markdown file: title, reexport note, source reference, docs,
/// declaration,
/// associated types, constants and methods, then implementors. Empty when
/// the item is not a documented trait.
pub open spec fn trait_file_text(m: DocModel, item: DocItem) -> Seq<char> {
    let file = file_text(item);
    match lookup(m.krate.index@, item.id) {
        None => seq![],
        Some(raw) => match raw.inner {
            ItemEnum::Trait(tr) => trim_end(
                "# Trait `"@ + join(item.canonical@, "::"@) + "`\n\n"@ + note_block(m, item.id) + src_block(raw) + item_docs_text(m, file, raw, 1)
                    + "## Declaration\n\n"@ + "```rust\n"@ + declaration_text(item.name@, tr) + "\n```\n\n"@
                    + assoc_section_text(m, file, "Associated Types"@, members(m, tr.items@, 0))
                    + assoc_section_text(m, file, "Associated Constants"@, members(m, tr.items@, 1))
                    + assoc_section_text(m, file, "Required and Provided Methods"@, members(m, tr.items@, 2))
                    + implementors_text(m, file, tr),
            ).push('\n'),
            _ => seq![],
        },
    }
}

/// The `pub trait Name<..>: Supertraits where ..` header line.
fn declaration(name: &str, tr: &Trait) -> (r: String)
    ensures
        r@ == declaration_text(name@, *tr),
{
    let mut s = copy_str("pub ");
    if tr.is_unsafe {
        push_str(&mut s, "unsafe ");
    }
    push_str(&mut s, "trait ");
    push_str(&mut s, name);
    let g = generics_decl(&tr.generics);
    push_str(&mut s, g.as_str());
    if tr.bounds.len() > 0 {
        push_str(&mut s, ": ");
        let b = bounds_str(&tr.bounds);
        push_str(&mut s, b.as_str());
    }
    let w = where_clause(&tr.generics);
    push_str(&mut s, w.as_str());
    assert(s@ =~= declaration_text(name@, *tr));
    s
}

/// A section of associated items (trait items have no `pub` keyword).
fn assoc_section(ctx: &Ctx, out: &mut String, file: &str, title: &str, items: Vec<&Item>)
    requires
        ctx.wf(),
    ensures
        final(out)@ == old(out)@ + assoc_section_text(*ctx.model, file@, title@, deref_items(items@)),
{
    reveal(assoc_section_text);
    if items.len() == 0 {
        return;
    }
    let ghost start = out@;
    push_str(out, "## ");
    push_str(out, title);
    push_str(out, "\n\n");
    let sorted = sort_items_by_name(items);
    proof {
        reveal_strlit("###");
    }
    push_assoc_list(ctx, out, file, &sorted, "###", false);
    assert(out@ =~= start + assoc_section_text(*ctx.model, file@, title@, deref_items(items@)));
}

/// The link to the documented item underlying a type, if any.
fn type_link(ctx: &Ctx, file: &str, ty: &Type) -> (r: Option<String>)
    requires
        ctx.wf(),
    ensures
        opt_text(r) == type_link_of(*ctx.model, file@, *ty),
{
    match ty {
        Type::ResolvedPath(path) => ctx.link(file, path.id),
        _ => None,
    }
}

/// List the in-crate types that implement this trait (those that are documented).
fn implementors(ctx: &Ctx, out: &mut String, file: &str, tr: &Trait)
    requires
        ctx.wf(),
    ensures
        final(out)@ == old(out)@ + implementors_text(*ctx.model, file@, *tr),
{
    reveal(implementors_text);
    let ghost m = *ctx.model;
    let ids = &tr.implementations;
    let mut entries: Vec<(String, Option<String>)> = Vec::new();
    let mut i: usize = 0;
    while i < ids.len()
        invariant
            i <= ids@.len(),
            ctx.wf(),
            m == *ctx.model,
            entries_increasing(entries_view(entries@)),
            forall|x: Entry| entries_view(entries@).contains(x) <==> implementor_entries(
                m,
                file@,
                ids@.take(i as int),
            ).contains(x),
        decreases ids@.len() - i,
    {
        let ghost pre = ids@.take(i as int);
        assert(ids@.take(i + 1).drop_last() =~= pre);
        assert(ids@.take(i + 1).last() == ids@[i as int]);
        if let Some(it) = ctx.raw(ids[i]) {
            if let ItemEnum::Impl(im) = &it.inner {
                if !(im.is_synthetic || im.blanket_impl.is_some()) {
                    let name = type_str(&im.for_);
                    let link = type_link(ctx, file, &im.for_);
                    let e = (name, link);
                    insert_entry(&mut entries, e);
                    let ghost now = implementor_entries(m, file@, ids@.take(i + 1));
                    assert(now == implementor_entries(m, file@, pre).push(entry_view(e)));
                    assert forall|x: Entry| entries_view(entries@).contains(x) <==> now.contains(x) by {
                        if x == entry_view(e) {
                            assert(now[now.len() - 1] == x);
                        }
                        if now.contains(x) && x != entry_view(e) {
                            let k = choose|k: int| 0 <= k < now.len() && now[k] == x;
                            assert(implementor_entries(m, file@, pre)[k] == x);
                        }
                        if implementor_entries(m, file@, pre).contains(x) {
                            let k = choose|k: int|
                                0 <= k < implementor_entries(m, file@, pre).len()
                                    && implementor_entries(m, file@, pre)[k] == x;
                            assert(now[k] == x);
                        }
                    }
                }
            }
        }
        i += 1;
    }
    assert(ids@.take(ids@.len() as int) =~= ids@);
    let ghost all = implementor_entries(m, file@, ids@);
    proof {
        lemma_sorted_distinct(entries_view(entries@), all);
        lemma_same_elements_empty(entries_view(entries@), all);
    }
    if entries.len() == 0 {
        return;
    }
    let ghost start = out@;
    push_str(out, "## Implementors\n\n");
    push_entry_list(out, &entries);
    push_char(out, '\n');
    assert(out@ =~= start + implementors_text(m, file@, *tr));
}

/// The members of a trait, grouped: associated types, associated constants,
/// methods.
fn group_members<'a>(ctx: &Ctx<'a>, ids: &Vec<Id>) -> (r: (Vec<&'a Item>, Vec<&'a Item>, Vec<&'a Item>))
    ensures
        deref_items(r.0@) == members(*ctx.model, ids@, 0),
        deref_items(r.1@) == members(*ctx.model, ids@, 1),
        deref_items(r.2@) == members(*ctx.model, ids@, 2),
{
    let ghost m = *ctx.model;
    let mut assoc_types: Vec<&'a Item> = Vec::new();
    let mut assoc_consts: Vec<&'a Item> = Vec::new();
    let mut methods: Vec<&'a Item> = Vec::new();
    let mut i: usize = 0;
    while i < ids.len()
        invariant
            i <= ids@.len(),
            m == *ctx.model,
            deref_items(assoc_types@) == members(m, ids@.take(i as int), 0),
            deref_items(assoc_consts@) == members(m, ids@.take(i as int), 1),
            deref_items(methods@) == members(m, ids@.take(i as int), 2),
        decreases ids@.len() - i,
    {
        assert(ids@.take(i + 1).drop_last() =~= ids@.take(i as int));
        assert(ids@.take(i + 1).last() == ids@[i as int]);
        let ghost (t0, c0, f0) = (deref_items(assoc_types@), deref_items(assoc_consts@), deref_items(methods@));
        if let Some(member) = ctx.raw(ids[i]) {
            match &member.inner {
                ItemEnum::AssocType { .. } => {
                    assoc_types.push(member);
                    assert(deref_items(assoc_types@) =~= t0.push(*member));
                },
                ItemEnum::AssocConst { .. } => {
                    assoc_consts.push(member);
                    assert(deref_items(assoc_consts@) =~= c0.push(*member));
                },
                ItemEnum::Function(_) => {
                    methods.push(member);
                    assert(deref_items(methods@) =~= f0.push(*member));
                },
                _ => {},
            }
        }
        i += 1;
    }
    assert(ids@.take(ids@.len() as int) =~= ids@);
    (assoc_types, assoc_consts, methods)
}

/// Render a trait's markdown file.
pub fn render(ctx: &Ctx, item: &DocItem) -> (r: String)
    requires
        ctx.wf(),
    ensures
        r@ == trait_file_text(*ctx.model, *item),
{
    let file: &str = match &item.file {
        Some(f) => f.as_str(),
        None => {
            proof {
                reveal_strlit("");
            }
            ""
        },
    };
    assert(file@ == file_text(*item));
    let raw = match ctx.raw(item.id) {
        Some(r) => r,
        None => {
            return String::new();
        },
    };
    let tr = match &raw.inner {
        ItemEnum::Trait(t) => t,
        _ => {
            return String::new();
        },
    };
    let ghost m = *ctx.model;
    let mut out = copy_str("# Trait `");
    let path = join_strings(&item.canonical.0, "::");
    push_str(&mut out, path.as_str());
    push_str(&mut out, "`\n\n");
    push_note(ctx, &mut out, item.id);
    if let Some(src) = ctx.source_ref(raw) {
        push_str(&mut out, src.as_str());
        push_str(&mut out, "\n\n");
    }
    push_item_docs(ctx, &mut out, file, raw, 1);
    // Declaration line.
    push_str(&mut out, "## Declaration\n\n");
    push_str(&mut out, "```rust\n");
    let decl = declaration(item.name.as_str(), tr);
    push_str(&mut out, decl.as_str());
    push_str(&mut out, "\n```\n\n");
    // Associated items, grouped: types, then constants, then methods.
    let (assoc_types, assoc_consts, methods) = group_members(ctx, &tr.items);
    assoc_section(ctx, &mut out, file, "Associated Types", assoc_types);
    assoc_section(ctx, &mut out, file, "Associated Constants", assoc_consts);
    assoc_section(ctx, &mut out, file, "Required and Provided Methods", methods);
    implementors(ctx, &mut out, file, tr);
    assert(out@ =~= "# Trait `"@ + join(item.canonical@, "::"@) + "`\n\n"@ + note_block(m, item.id) + src_block(*raw) + item_docs_text(m, file@, *raw, 1)
        + "## Declaration\n\n"@ + "```rust\n"@ + declaration_text(item.name@, *tr) + "\n```\n\n"@
        + assoc_section_text(m, file@, "Associated Types"@, members(m, tr.items@, 0))
        + assoc_section_text(m, file@, "Associated Constants"@, members(m, tr.items@, 1))
        + assoc_section_text(m, file@, "Required and Provided Methods"@, members(m, tr.items@, 2))
        + implementors_text(m, file@, *tr));
    finish(out)
}

/// A trait with supertraits declares them after its name and generics: `: `
/// and the bounds joined by ` + `, before any where clause; a trait without
/// bounds has none.
pub proof fn law_trait_supertraits(name: Seq<char>, tr: Trait)
    ensures
        tr.bounds@.len() > 0 ==> declaration_text(name, tr) == (if tr.is_unsafe {
            "pub unsafe trait "@
        } else {
            "pub trait "@
        }) + name + generics_text(tr.generics) + ": "@ + join(bounds_parts(tr.bounds@), " + "@) + where_text(
            tr.generics,
        ),
        tr.bounds@.len() == 0 ==> declaration_text(name, tr) == (if tr.is_unsafe {
            "pub unsafe trait "@
        } else {
            "pub trait "@
        }) + name + generics_text(tr.generics) + where_text(tr.generics),
{
    reveal_strlit("pub ");
    reveal_strlit("unsafe ");
    reveal_strlit("trait ");
    reveal_strlit("pub unsafe trait ");
    reveal_strlit("pub trait ");
    let g = generics_text(tr.generics);
    let w = where_text(tr.generics);
    let b = join(bounds_parts(tr.bounds@), " + "@);
    let u = if tr.is_unsafe {
        "unsafe "@
    } else {
        seq![]
    };
    let head = if tr.is_unsafe {
        "pub unsafe trait "@
    } else {
        "pub trait "@
    };
    assert("pub "@ + u + "trait "@ =~= head);
    if tr.bounds@.len() > 0 {
        assert("pub "@ + u + "trait "@ + name + g + (": "@ + b) + w =~= head + name + g + ": "@ + b + w);
    } else {
        assert("pub "@ + u + "trait "@ + name + g + Seq::<char>::empty() + w =~= head + name + g + w);
    }
}

} // verus!
