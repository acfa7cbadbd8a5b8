//! Render a type's markdown file: its definition, inherent impls (with methods),
//! and the list of traits it implements (auto traits and blanket impls omitted).

use vstd::prelude::*;

use crate::model::rustdoc::{lookup, Enum, Id, Impl, Item, ItemEnum, Struct, StructKind, Union, VariantKind};
use crate::model::{DocItem, DocModel};
use crate::render::assoc::{assoc_text, render as render_assoc};
use crate::render::links::{link_of, note_block, opt_text, push_note, source_ref_text};
use crate::render::signature::{generics_decl, generics_text, path_str, path_text, type_str, type_text, where_clause, where_text};
use crate::render::sorting::{
    by_name, deref_items, entries_increasing, entries_view, entry_view, insert_entry,
    lemma_sorted_distinct, opt_name, sort_items_by_name, sorted_distinct, Entry,
};
use crate::render::{finish, item_docs_text, push_item_docs, Ctx};
use crate::text::{chars_of, copy_str, join, join_strings, lines, push_char, push_str, split_lines, texts, trim_end};

verus! {

// ---------------------------------------------------------------------------
// The text of a type's file

/// Doc comment lines `<indent>/// <line>` (`<indent>///` for an empty line).
pub open spec fn comment_lines(ls: Seq<Seq<char>>, indent: Seq<char>) -> Seq<char>
    decreases ls.len(),
{
    if ls.len() == 0 {
        seq![]
    } else {
        comment_lines(ls.drop_last(), indent) + indent + if ls.last().len() == 0 {
            "///\n"@
        } else {
            "/// "@ + ls.last() + seq!['\n']
        }
    }
}

/// Optional docs as doc comment lines.
pub open spec fn doc_comment_text(docs: Option<Seq<char>>, indent: Seq<char>) -> Seq<char> {
    match docs {
        Some(d) => comment_lines(lines(d), indent),
        None => seq![],
    }
}

/// Each line indented by four spaces.
pub open spec fn indented_lines(ls: Seq<Seq<char>>) -> Seq<char>
    decreases ls.len(),
{
    if ls.len() == 0 {
        seq![]
    } else {
        indented_lines(ls.drop_last()) + "    "@ + ls.last() + seq!['\n']
    }
}

/// The type of a field item, if `id` is one.
pub open spec fn field_type_text(m: DocModel, id: Id) -> Option<Seq<char>> {
    match lookup(m.krate.index@, id) {
        Some(it) => match it.inner {
            ItemEnum::StructField(ty) => Some(type_text(ty)),
            _ => None,
        },
        None => None,
    }
}

/// The `pub ` keyword, when asked for.
pub open spec fn pub_text(p: bool) -> Seq<char> {
    if p {
        "pub "@
    } else {
        seq![]
    }
}

/// One named field: its doc comment, then `[pub ]name: Type,`.
pub open spec fn field_line(m: DocModel, fid: Id, pub_prefix: bool) -> Seq<char> {
    match lookup(m.krate.index@, fid) {
        Some(it) => match it.inner {
            ItemEnum::StructField(ty) => match it.name {
                Some(n) => doc_comment_text(opt_name(it.docs), "    "@) + "    "@ + pub_text(pub_prefix) + n@
                    + ": "@ + type_text(ty) + ",\n"@,
                None => seq![],
            },
            _ => seq![],
        },
        None => seq![],
    }
}

/// The lines of named fields, in order.
pub open spec fn field_lines(m: DocModel, fields: Seq<Id>, pub_prefix: bool) -> Seq<char>
    decreases fields.len(),
{
    if fields.len() == 0 {
        seq![]
    } else {
        field_lines(m, fields.drop_last(), pub_prefix) + field_line(m, fields.last(), pub_prefix)
    }
}

/// Named fields, with a note when some were omitted.
pub open spec fn named_fields_text(m: DocModel, fields: Seq<Id>, hsf: bool, pub_prefix: bool) -> Seq<char> {
    field_lines(m, fields, pub_prefix) + if hsf {
        "    // some fields omitted\n"@
    } else {
        seq![]
    }
}

/// One positional field: its type (with `pub ` if asked), or
/// `/* private */` when it is stripped or not a field.
pub open spec fn tuple_part(m: DocModel, f: Option<Id>, pub_prefix: bool) -> Seq<char> {
    match f {
        Some(id) => match field_type_text(m, id) {
            Some(t) => pub_text(pub_prefix) + t,
            None => "/* private */"@,
        },
        None => "/* private */"@,
    }
}

/// The positional fields.
pub open spec fn tuple_parts(m: DocModel, fs: Seq<Option<Id>>, pub_prefix: bool) -> Seq<Seq<char>> {
    Seq::new(fs.len(), |i: int| tuple_part(m, fs[i], pub_prefix))
}

/// A struct's definition.
pub open spec fn struct_def_text(m: DocModel, name: Seq<char>, s: Struct) -> Seq<char> {
    let g = generics_text(s.generics);
    let w = where_text(s.generics);
    match s.kind {
        StructKind::Unit => "pub struct "@ + name + g + w + ";"@,
        StructKind::Tuple(fields) => "pub struct "@ + name + g + "("@ + join(tuple_parts(m, fields@, true), ", "@)
            + ")"@ + w + ";"@,
        StructKind::Plain { fields, has_stripped_fields } => "pub struct "@ + name + g + w + " {\n"@
            + named_fields_text(m, fields@, has_stripped_fields, true) + "}"@,
    }
}

/// A union's definition.
pub open spec fn union_def_text(m: DocModel, name: Seq<char>, u: Union) -> Seq<char> {
    "pub union "@ + name + generics_text(u.generics) + where_text(u.generics) + " {\n"@
        + named_fields_text(m, u.fields@, u.has_stripped_fields, true) + "}"@
}

/// The shape of a variant after its name.
pub open spec fn variant_shape(m: DocModel, k: VariantKind) -> Seq<char> {
    match k {
        VariantKind::Plain => seq![],
        VariantKind::Tuple(fields) => "("@ + join(tuple_parts(m, fields@, false), ", "@) + ")"@,
        VariantKind::Struct { fields, has_stripped_fields } => " {\n"@ + indented_lines(
            lines(named_fields_text(m, fields@, has_stripped_fields, false)),
        ) + "    }"@,
    }
}

/// One variant: its doc comment, then `Name<shape>[ = discriminant],`.
pub open spec fn variant_line(m: DocModel, vid: Id) -> Seq<char> {
    match lookup(m.krate.index@, vid) {
        Some(it) => match it.inner {
            ItemEnum::Variant(v) => match it.name {
                Some(n) => doc_comment_text(opt_name(it.docs), "    "@) + "    "@ + n@ + variant_shape(m, v.kind)
                    + match v.discriminant {
                    Some(d) => " = "@ + d.expr@,
                    None => seq![],
                } + ",\n"@,
                None => seq![],
            },
            _ => seq![],
        },
        None => seq![],
    }
}

/// The variant lines, in order.
pub open spec fn variant_lines(m: DocModel, vs: Seq<Id>) -> Seq<char>
    decreases vs.len(),
{
    if vs.len() == 0 {
        seq![]
    } else {
        variant_lines(m, vs.drop_last()) + variant_line(m, vs.last())
    }
}

/// An enum's definition.
pub open spec fn enum_def_text(m: DocModel, name: Seq<char>, e: Enum) -> Seq<char> {
    "pub enum "@ + name + generics_text(e.generics) + where_text(e.generics) + " {\n"@ + variant_lines(m, e.variants@)
        + if e.has_stripped_variants {
        "    // some variants omitted\n"@
    } else {
        seq![]
    } + "}"@
}

/// The impl with id `id`, unless it is synthetic (an auto trait) or a
/// blanket impl.
pub open spec fn shown_impl(m: DocModel, id: Id) -> Option<Impl> {
    match lookup(m.krate.index@, id) {
        Some(it) => match it.inner {
            ItemEnum::Impl(im) => if im.is_synthetic || im.blanket_impl is Some {
                None
            } else {
                Some(im)
            },
            _ => None,
        },
        None => None,
    }
}

/// The shown inherent impls among `ids`, in order.
pub open spec fn inherent_impls(m: DocModel, ids: Seq<Id>) -> Seq<Impl>
    decreases ids.len(),
{
    if ids.len() == 0 {
        seq![]
    } else {
        let r = inherent_impls(m, ids.drop_last());
        match shown_impl(m, ids.last()) {
            Some(im) => if im.trait_ is None {
                r.push(im)
            } else {
                r
            },
            None => r,
        }
    }
}

/// The traits of the shown trait impls among `ids`, with links, in order.
pub open spec fn trait_impl_entries(m: DocModel, file: Seq<char>, ids: Seq<Id>) -> Seq<Entry>
    decreases ids.len(),
{
    if ids.len() == 0 {
        seq![]
    } else {
        let r = trait_impl_entries(m, file, ids.drop_last());
        match shown_impl(m, ids.last()) {
            Some(im) => match im.trait_ {
                Some(tp) => r.push((path_text(tp), link_of(m, file, tp.id))),
                None => r,
            },
            None => r,
        }
    }
}

/// A bulleted list of names, linked where there is a link.
pub open spec fn entry_list_text(es: Seq<Entry>) -> Seq<char>
    decreases es.len(),
{
    if es.len() == 0 {
        seq![]
    } else {
        entry_list_text(es.drop_last()) + match es.last().1 {
            Some(h) => "- [`"@ + es.last().0 + "`]("@ + h + ")\n"@,
            None => "- `"@ + es.last().0 + "`\n"@,
        }
    }
}

/// The `Trait Implementations` section.
pub open spec fn trait_impls_text(m: DocModel, file: Seq<char>, ids: Seq<Id>) -> Seq<char> {
    let es = trait_impl_entries(m, file, ids);
    if es.len() == 0 {
        seq![]
    } else {
        "## Trait Implementations\n\n"@ + entry_list_text(sorted_distinct(es)) + seq!['\n']
    }
}

/// The items among `ids` that the index holds, in order.
pub open spec fn raws_of(m: DocModel, ids: Seq<Id>) -> Seq<Item>
    decreases ids.len(),
{
    if ids.len() == 0 {
        seq![]
    } else {
        let r = raws_of(m, ids.drop_last());
        match lookup(m.krate.index@, ids.last()) {
            Some(it) => r.push(it),
            None => r,
        }
    }
}

/// Associated items, each under `heading`.
pub open spec fn assoc_list_text(m: DocModel, file: Seq<char>, items: Seq<Item>, heading: Seq<char>, pub_kw: bool) -> Seq<char>
    decreases items.len(),
{
    if items.len() == 0 {
        seq![]
    } else {
        assoc_list_text(m, file, items.drop_last(), heading, pub_kw) + assoc_text(m, file, items.last(), heading, pub_kw)
    }
}

/// One inherent impl block: its header and its items sorted by name.
pub open spec fn impl_block_text(m: DocModel, file: Seq<char>, im: Impl) -> Seq<char> {
    if im.items@.len() == 0 {
        seq![]
    } else {
        "### `"@ + "impl"@ + generics_text(im.generics) + seq![' '] + type_text(im.for_) + where_text(im.generics)
            + "`\n\n"@ + assoc_list_text(m, file, by_name(raws_of(m, im.items@)), "####"@, true)
    }
}

/// The impl blocks, in order.
pub open spec fn impl_blocks_text(m: DocModel, file: Seq<char>, blocks: Seq<Impl>) -> Seq<char>
    decreases blocks.len(),
{
    if blocks.len() == 0 {
        seq![]
    } else {
        impl_blocks_text(m, file, blocks.drop_last()) + impl_block_text(m, file, blocks.last())
    }
}

/// The `Implementations` section, present when some block has items.
pub open spec fn inherent_text(m: DocModel, file: Seq<char>, blocks: Seq<Impl>) -> Seq<char> {
    if exists|i: int| 0 <= i < blocks.len() && blocks[i].items@.len() > 0 {
        "## Implementations\n\n"@ + impl_blocks_text(m, file, blocks)
    } else {
        seq![]
    }
}

/// Everything about a type's impls.
pub open spec fn impls_text(m: DocModel, file: Seq<char>, ids: Seq<Id>) -> Seq<char> {
    inherent_text(m, file, inherent_impls(m, ids)) + trait_impls_text(m, file, ids)
}

/// The source reference line, if any.
pub open spec fn src_block(raw: Item) -> Seq<char> {
    match source_ref_text(raw) {
        Some(s) => s + "\n\n"@,
        None => seq![],
    }
}

/// The keyword, definition and impl ids of a struct, enum or union.
pub open spec fn type_parts(m: DocModel, name: Seq<char>, inner: ItemEnum) -> Option<(Seq<char>, Seq<char>, Seq<Id>)> {
    match inner {
        ItemEnum::Struct(s) => Some(("Struct"@, struct_def_text(m, name, s), s.impls@)),
        ItemEnum::Enum(e) => Some(("Enum"@, enum_def_text(m, name, e), e.impls@)),
        ItemEnum::Union(u) => Some(("Union"@, union_def_text(m, name, u), u.impls@)),
        _ => None,
    }
}

/// The output file of a documented item, as text (empty when it has none).
pub open spec fn file_text(item: DocItem) -> Seq<char> {
    match item.file {
        Some(f) => f@,
        None => seq![],
    }
}

/// A type's markdown file: title, reexport note, source reference, docs,
/// definition, then its impls; empty when the item is not a struct, enum or union.
pub open spec fn type_file_text(m: DocModel, item: DocItem) -> Seq<char> {
    let file = file_text(item);
    match lookup(m.krate.index@, item.id) {
        None => seq![],
        Some(raw) => match type_parts(m, item.name@, raw.inner) {
            None => seq![],
            Some(parts) => trim_end(
                "# "@ + parts.0 + " `"@ + join(item.canonical@, "::"@) + "`\n\n"@ + note_block(m, item.id) + src_block(raw)
                    + item_docs_text(m, file, raw, 1) + "## Definition\n\n"@ + "```rust\n"@ + parts.1
                    + "\n```\n\n"@ + impls_text(m, file, parts.2),
            ).push('\n'),
        },
    }
}


// ---------------------------------------------------------------------------
// Rendering

/// The type of field `id`, if it is a field.
fn field_type(ctx: &Ctx, id: Id) -> (r: Option<String>)
    ensures
        opt_text(r) == field_type_text(*ctx.model, id),
{
    match ctx.raw(id) {
        Some(it) => match &it.inner {
            ItemEnum::StructField(ty) => Some(type_str(ty)),
            _ => None,
        },
        None => None,
    }
}

/// Appends docs as doc comment lines under `indent`.
fn push_doc_comment(out: &mut String, docs: Option<&str>, indent: &str)
    ensures
        final(out)@ == old(out)@ + doc_comment_text(
            match docs {
                Some(d) => Some(d@),
                None => None,
            },
            indent@,
        ),
{
    let docs = match docs {
        Some(d) => d,
        None => {
            return;
        },
    };
    let ghost start = out@;
    let cs = chars_of(docs);
    let ls = split_lines(cs.as_slice());
    let ghost lv = ls@.map_values(|l: Vec<char>| l@);
    let mut i: usize = 0;
    while i < ls.len()
        invariant
            i <= ls@.len(),
            lv == ls@.map_values(|l: Vec<char>| l@),
            lv == lines(docs@),
            out@ == start + comment_lines(lv.take(i as int), indent@),
        decreases ls@.len() - i,
    {
        assert(lv.take(i + 1).drop_last() =~= lv.take(i as int));
        assert(lv.take(i + 1).last() == ls@[i as int]@);
        let line = ls[i].as_slice();
        push_str(out, indent);
        if line.len() == 0 {
            push_str(out, "///\n");
        } else {
            push_str(out, "/// ");
            crate::text::push_range(out, line, 0, line.len());
            assert(line@.subrange(0, line@.len() as int) =~= line@);
            push_char(out, '\n');
        }
        assert(out@ =~= start + comment_lines(lv.take(i + 1), indent@));
        i += 1;
    }
    assert(lv.take(ls@.len() as int) =~= lv);
}

/// Each line of `block` indented by four spaces.
fn indent_block(block: &str) -> (r: String)
    ensures
        r@ == indented_lines(lines(block@)),
{
    let cs = chars_of(block);
    let ls = split_lines(cs.as_slice());
    let ghost lv = ls@.map_values(|l: Vec<char>| l@);
    let mut out = String::new();
    let mut i: usize = 0;
    while i < ls.len()
        invariant
            i <= ls@.len(),
            lv == ls@.map_values(|l: Vec<char>| l@),
            lv == lines(block@),
            out@ == indented_lines(lv.take(i as int)),
        decreases ls@.len() - i,
    {
        assert(lv.take(i + 1).drop_last() =~= lv.take(i as int));
        assert(lv.take(i + 1).last() == ls@[i as int]@);
        let line = ls[i].as_slice();
        push_str(&mut out, "    ");
        crate::text::push_range(&mut out, line, 0, line.len());
        assert(line@.subrange(0, line@.len() as int) =~= line@);
        push_char(&mut out, '\n');
        assert(out@ =~= indented_lines(lv.take(i + 1)));
        i += 1;
    }
    assert(lv.take(ls@.len() as int) =~= lv);
    out
}

/// Render named fields as `[pub ]name: Type,` lines with their doc comments.
/// Struct and union fields take `pub`; enum-variant fields do not.
fn named_fields(ctx: &Ctx, fields: &Vec<Id>, has_stripped_fields: bool, pub_prefix: bool) -> (r: String)
    ensures
        r@ == named_fields_text(*ctx.model, fields@, has_stripped_fields, pub_prefix),
{
    let mut body = String::new();
    let mut i: usize = 0;
    while i < fields.len()
        invariant
            i <= fields@.len(),
            body@ == field_lines(*ctx.model, fields@.take(i as int), pub_prefix),
        decreases fields@.len() - i,
    {
        assert(fields@.take(i + 1).drop_last() =~= fields@.take(i as int));
        assert(fields@.take(i + 1).last() == fields@[i as int]);
        let ghost before = body@;
        let fid = fields[i];
        if let Some(item) = ctx.raw(fid) {
            if let ItemEnum::StructField(ty) = &item.inner {
                if let Some(fname) = &item.name {
                    push_doc_comment(
                        &mut body,
                        match &item.docs {
                            Some(d) => Some(d.as_str()),
                            None => None,
                        },
                        "    ",
                    );
                    push_str(&mut body, "    ");
                    if pub_prefix {
                        push_str(&mut body, "pub ");
                    }
                    push_str(&mut body, fname.as_str());
                    push_str(&mut body, ": ");
                    let t = type_str(ty);
                    push_str(&mut body, t.as_str());
                    push_str(&mut body, ",\n");
                }
            }
        }
        assert(body@ =~= before + field_line(*ctx.model, fid, pub_prefix));
        i += 1;
    }
    assert(fields@.take(fields@.len() as int) =~= fields@);
    if has_stripped_fields {
        push_str(&mut body, "    // some fields omitted\n");
    }
    assert(body@ =~= named_fields_text(*ctx.model, fields@, has_stripped_fields, pub_prefix));
    body
}

/// Positional fields joined with `, `.
fn tuple_fields(ctx: &Ctx, fields: &Vec<Option<Id>>, pub_prefix: bool) -> (r: String)
    ensures
        r@ == join(tuple_parts(*ctx.model, fields@, pub_prefix), ", "@),
{
    let mut parts: Vec<String> = Vec::new();
    let mut i: usize = 0;
    while i < fields.len()
        invariant
            i <= fields@.len(),
            texts(parts@) == tuple_parts(*ctx.model, fields@, pub_prefix).take(i as int),
        decreases fields@.len() - i,
    {
        let part = match fields[i] {
            Some(id) => match field_type(ctx, id) {
                Some(t) => {
                    let mut p = if pub_prefix {
                        copy_str("pub ")
                    } else {
                        String::new()
                    };
                    push_str(&mut p, t.as_str());
                    p
                },
                None => copy_str("/* private */"),
            },
            None => copy_str("/* private */"),
        };
        assert(part@ == tuple_part(*ctx.model, fields@[i as int], pub_prefix));
        crate::text::push_text(&mut parts, part);
        assert(tuple_parts(*ctx.model, fields@, pub_prefix).take(i + 1) =~= tuple_parts(
            *ctx.model,
            fields@,
            pub_prefix,
        ).take(i as int).push(part@));
        i += 1;
    }
    assert(tuple_parts(*ctx.model, fields@, pub_prefix).take(fields@.len() as int) =~= tuple_parts(
        *ctx.model,
        fields@,
        pub_prefix,
    ));
    join_strings(&parts, ", ")
}

/// A struct's definition.
fn struct_def(ctx: &Ctx, name: &str, s: &Struct) -> (r: String)
    ensures
        r@ == struct_def_text(*ctx.model, name@, *s),
{
    let generics = generics_decl(&s.generics);
    let where_str = where_clause(&s.generics);
    let mut out = copy_str("pub struct ");
    push_str(&mut out, name);
    push_str(&mut out, generics.as_str());
    match &s.kind {
        StructKind::Unit => {
            push_str(&mut out, where_str.as_str());
            push_str(&mut out, ";");
        },
        StructKind::Tuple(fields) => {
            push_str(&mut out, "(");
            let parts = tuple_fields(ctx, fields, true);
            push_str(&mut out, parts.as_str());
            push_str(&mut out, ")");
            push_str(&mut out, where_str.as_str());
            push_str(&mut out, ";");
        },
        StructKind::Plain { fields, has_stripped_fields } => {
            push_str(&mut out, where_str.as_str());
            push_str(&mut out, " {\n");
            let body = named_fields(ctx, fields, *has_stripped_fields, true);
            push_str(&mut out, body.as_str());
            push_str(&mut out, "}");
        },
    }
    assert(out@ =~= struct_def_text(*ctx.model, name@, *s));
    out
}

/// A union's definition.
fn union_def(ctx: &Ctx, name: &str, u: &Union) -> (r: String)
    ensures
        r@ == union_def_text(*ctx.model, name@, *u),
{
    let mut out = copy_str("pub union ");
    push_str(&mut out, name);
    let g = generics_decl(&u.generics);
    push_str(&mut out, g.as_str());
    let w = where_clause(&u.generics);
    push_str(&mut out, w.as_str());
    push_str(&mut out, " {\n");
    let body = named_fields(ctx, &u.fields, u.has_stripped_fields, true);
    push_str(&mut out, body.as_str());
    push_str(&mut out, "}");
    assert(out@ =~= union_def_text(*ctx.model, name@, *u));
    out
}

/// Appends one variant line with its doc comment.
fn push_variant(ctx: &Ctx, body: &mut String, vid: Id)
    ensures
        final(body)@ == old(body)@ + variant_line(*ctx.model, vid),
{
    let ghost before = body@;
    if let Some(item) = ctx.raw(vid) {
        if let ItemEnum::Variant(variant) = &item.inner {
            if let Some(vname) = &item.name {
                push_doc_comment(
                    body,
                    match &item.docs {
                        Some(d) => Some(d.as_str()),
                        None => None,
                    },
                    "    ",
                );
                push_str(body, "    ");
                push_str(body, vname.as_str());
                let ghost mid = body@;
                match &variant.kind {
                    VariantKind::Plain => {},
                    VariantKind::Tuple(fields) => {
                        push_str(body, "(");
                        let parts = tuple_fields(ctx, fields, false);
                        push_str(body, parts.as_str());
                        push_str(body, ")");
                    },
                    VariantKind::Struct { fields, has_stripped_fields } => {
                        // Enum-variant fields take no `pub` keyword.
                        let inner = named_fields(ctx, fields, *has_stripped_fields, false);
                        push_str(body, " {\n");
                        let ind = indent_block(inner.as_str());
                        push_str(body, ind.as_str());
                        push_str(body, "    }");
                    },
                }
                assert(body@ =~= mid + variant_shape(*ctx.model, variant.kind));
                if let Some(d) = &variant.discriminant {
                    push_str(body, " = ");
                    push_str(body, d.expr.as_str());
                }
                push_str(body, ",\n");
            }
        }
    }
    assert(body@ =~= before + variant_line(*ctx.model, vid));
}

/// An enum's definition, variants with their doc comments.
fn enum_def(ctx: &Ctx, name: &str, e: &Enum) -> (r: String)
    ensures
        r@ == enum_def_text(*ctx.model, name@, *e),
{
    let mut body = String::new();
    let mut i: usize = 0;
    while i < e.variants.len()
        invariant
            i <= e.variants@.len(),
            body@ == variant_lines(*ctx.model, e.variants@.take(i as int)),
        decreases e.variants@.len() - i,
    {
        assert(e.variants@.take(i + 1).drop_last() =~= e.variants@.take(i as int));
        assert(e.variants@.take(i + 1).last() == e.variants@[i as int]);
        let vid = e.variants[i];
        push_variant(ctx, &mut body, vid);
        i += 1;
    }
    assert(e.variants@.take(e.variants@.len() as int) =~= e.variants@);
    if e.has_stripped_variants {
        push_str(&mut body, "    // some variants omitted\n");
    }
    let mut out = copy_str("pub enum ");
    push_str(&mut out, name);
    let g = generics_decl(&e.generics);
    push_str(&mut out, g.as_str());
    let w = where_clause(&e.generics);
    push_str(&mut out, w.as_str());
    push_str(&mut out, " {\n");
    push_str(&mut out, body.as_str());
    push_str(&mut out, "}");
    assert(out@ =~= enum_def_text(*ctx.model, name@, *e));
    out
}


/// The impls a list of references points to.
pub open spec fn deref_impls(v: Seq<&Impl>) -> Seq<Impl> {
    v.map_values(|r: &Impl| *r)
}

/// Appends the entries as a bulleted list.
pub fn push_entry_list(out: &mut String, list: &Vec<(String, Option<String>)>)
    ensures
        final(out)@ == old(out)@ + entry_list_text(entries_view(list@)),
{
    let ghost start = out@;
    let ghost ev = entries_view(list@);
    let mut k: usize = 0;
    while k < list.len()
        invariant
            k <= list@.len(),
            ev == entries_view(list@),
            out@ == start + entry_list_text(ev.take(k as int)),
        decreases list@.len() - k,
    {
        assert(ev.take(k + 1).drop_last() =~= ev.take(k as int));
        assert(ev[k as int] == entry_view(list@[k as int]));
        match &list[k].1 {
            Some(href) => {
                push_str(out, "- [`");
                push_str(out, list[k].0.as_str());
                push_str(out, "`](");
                push_str(out, href.as_str());
                push_str(out, ")\n");
            },
            None => {
                push_str(out, "- `");
                push_str(out, list[k].0.as_str());
                push_str(out, "`\n");
            },
        }
        assert(out@ =~= start + entry_list_text(ev.take(k + 1)));
        k += 1;
    }
    assert(ev.take(list@.len() as int) =~= ev);
}

/// A list with the same elements as `s` is empty exactly when `s` is.
pub proof fn lemma_same_elements_empty(r: Seq<Entry>, s: Seq<Entry>)
    requires
        forall|x: Entry| r.contains(x) <==> s.contains(x),
    ensures
        (r.len() == 0) == (s.len() == 0),
{
    if s.len() > 0 {
        assert(s.contains(s[0]));
    }
    if r.len() > 0 {
        assert(r.contains(r[0]));
    }
}

/// The items among `ids` that the index holds.
pub(crate) fn raws<'a>(ctx: &Ctx<'a>, ids: &Vec<Id>) -> (r: Vec<&'a Item>)
    ensures
        deref_items(r@) == raws_of(*ctx.model, ids@),
{
    let mut out: Vec<&'a Item> = Vec::new();
    let mut i: usize = 0;
    while i < ids.len()
        invariant
            i <= ids@.len(),
            deref_items(out@) == raws_of(*ctx.model, ids@.take(i as int)),
        decreases ids@.len() - i,
    {
        assert(ids@.take(i + 1).drop_last() =~= ids@.take(i as int));
        assert(ids@.take(i + 1).last() == ids@[i as int]);
        let ghost before = deref_items(out@);
        if let Some(it) = ctx.raw(ids[i]) {
            out.push(it);
            assert(deref_items(out@) =~= before.push(*it));
        }
        i += 1;
    }
    assert(ids@.take(ids@.len() as int) =~= ids@);
    out
}

/// Appends associated items, each under `heading`.
pub fn push_assoc_list(ctx: &Ctx, out: &mut String, file: &str, items: &Vec<&Item>, heading: &str, pub_kw: bool)
    requires
        ctx.wf(),
        heading@.len() <= 6,
    ensures
        final(out)@ == old(out)@ + assoc_list_text(*ctx.model, file@, deref_items(items@), heading@, pub_kw),
{
    let ghost start = out@;
    let ghost iv = deref_items(items@);
    proof {
        crate::render::assoc::lemma_leading_count_le(heading@, '#');
    }
    let mut k: usize = 0;
    while k < items.len()
        invariant
            k <= items@.len(),
            ctx.wf(),
            crate::text::leading_count(heading@, '#') <= 6,
            iv == deref_items(items@),
            out@ == start + assoc_list_text(*ctx.model, file@, iv.take(k as int), heading@, pub_kw),
        decreases items@.len() - k,
    {
        assert(iv.take(k + 1).drop_last() =~= iv.take(k as int));
        assert(iv.take(k + 1).last() == *items@[k as int]);
        render_assoc(ctx, out, file, items[k], heading, pub_kw);
        k += 1;
    }
    assert(iv.take(items@.len() as int) =~= iv);
}

/// Appends one inherent impl block: its header and its items sorted by name.
fn push_impl_block(ctx: &Ctx, out: &mut String, file: &str, im: &Impl)
    requires
        ctx.wf(),
    ensures
        final(out)@ == old(out)@ + impl_block_text(*ctx.model, file@, *im),
{
    let ghost before = out@;
    if im.items.len() > 0 {
        push_str(out, "### `");
        push_str(out, "impl");
        let g = generics_decl(&im.generics);
        push_str(out, g.as_str());
        push_char(out, ' ');
        let t = type_str(&im.for_);
        push_str(out, t.as_str());
        let w = where_clause(&im.generics);
        push_str(out, w.as_str());
        push_str(out, "`\n\n");
        let items = sort_items_by_name(raws(ctx, &im.items));
        proof {
            reveal_strlit("####");
        }
        push_assoc_list(ctx, out, file, &items, "####", true);
    }
    assert(out@ =~= before + impl_block_text(*ctx.model, file@, *im));
}

/// The inherent impl blocks, each with its header and methods.
fn render_inherent(ctx: &Ctx, out: &mut String, file: &str, blocks: &Vec<&Impl>)
    requires
        ctx.wf(),
    ensures
        final(out)@ == old(out)@ + inherent_text(*ctx.model, file@, deref_impls(blocks@)),
{
    let ghost bv = deref_impls(blocks@);
    let mut has_items = false;
    let mut i: usize = 0;
    while i < blocks.len()
        invariant
            i <= blocks@.len(),
            bv == deref_impls(blocks@),
            has_items == exists|j: int| 0 <= j < i && bv[j].items@.len() > 0,
        decreases blocks@.len() - i,
    {
        assert(bv[i as int] == *blocks@[i as int]);
        if blocks[i].items.len() > 0 {
            has_items = true;
        }
        i += 1;
    }
    if !has_items {
        return;
    }
    let ghost start = out@;
    push_str(out, "## Implementations\n\n");
    let ghost head = out@;
    let mut b: usize = 0;
    while b < blocks.len()
        invariant
            b <= blocks@.len(),
            ctx.wf(),
            bv == deref_impls(blocks@),
            out@ == head + impl_blocks_text(*ctx.model, file@, bv.take(b as int)),
        decreases blocks@.len() - b,
    {
        assert(bv.take(b + 1).drop_last() =~= bv.take(b as int));
        assert(bv.take(b + 1).last() == *blocks@[b as int]);
        push_impl_block(ctx, out, file, blocks[b]);
        b += 1;
    }
    assert(bv.take(blocks@.len() as int) =~= bv);
    assert(out@ =~= start + inherent_text(*ctx.model, file@, bv));
}

/// The inherent impls and the trait implementations of a type.
fn render_impls(ctx: &Ctx, out: &mut String, file: &str, impl_ids: &Vec<Id>)
    requires
        ctx.wf(),
    ensures
        final(out)@ == old(out)@ + impls_text(*ctx.model, file@, impl_ids@),
{
    let ghost m = *ctx.model;
    let mut inherent: Vec<&Impl> = Vec::new();
    let mut trait_impls: Vec<(String, Option<String>)> = Vec::new();
    let mut i: usize = 0;
    while i < impl_ids.len()
        invariant
            i <= impl_ids@.len(),
            ctx.wf(),
            m == *ctx.model,
            deref_impls(inherent@) == inherent_impls(m, impl_ids@.take(i as int)),
            entries_increasing(entries_view(trait_impls@)),
            forall|x: Entry| entries_view(trait_impls@).contains(x) <==> trait_impl_entries(
                m,
                file@,
                impl_ids@.take(i as int),
            ).contains(x),
        decreases impl_ids@.len() - i,
    {
        let ghost pre = impl_ids@.take(i as int);
        assert(impl_ids@.take(i + 1).drop_last() =~= pre);
        assert(impl_ids@.take(i + 1).last() == impl_ids@[i as int]);
        let ghost inh0 = deref_impls(inherent@);
        let id = impl_ids[i];
        if let Some(it) = ctx.raw(id) {
            if let ItemEnum::Impl(im) = &it.inner {
                // Auto traits and blanket impls are omitted.
                if !(im.is_synthetic || im.blanket_impl.is_some()) {
                    match &im.trait_ {
                        None => {
                            inherent.push(im);
                            assert(deref_impls(inherent@) =~= inh0.push(*im));
                        },
                        Some(trait_path) => {
                            let name = path_str(trait_path);
                            let link = ctx.link(file, trait_path.id);
                            let e = (name, link);
                            insert_entry(&mut trait_impls, e);
                            let ghost now = trait_impl_entries(m, file@, impl_ids@.take(i + 1));
                            assert(now == trait_impl_entries(m, file@, pre).push(entry_view(e)));
                            assert forall|x: Entry| entries_view(trait_impls@).contains(x) <==> now.contains(x) by {
                                if x == entry_view(e) {
                                    assert(now[now.len() - 1] == x);
                                }
                                if now.contains(x) && x != entry_view(e) {
                                    let k = choose|k: int| 0 <= k < now.len() && now[k] == x;
                                    assert(trait_impl_entries(m, file@, pre)[k] == x);
                                }
                                if trait_impl_entries(m, file@, pre).contains(x) {
                                    let k = choose|k: int|
                                        0 <= k < trait_impl_entries(m, file@, pre).len()
                                            && trait_impl_entries(m, file@, pre)[k] == x;
                                    assert(now[k] == x);
                                }
                            }
                        },
                    }
                }
            }
        }
        i += 1;
    }
    assert(impl_ids@.take(impl_ids@.len() as int) =~= impl_ids@);
    let ghost start = out@;
    render_inherent(ctx, out, file, &inherent);
    let ghost mid = out@;
    let ghost all = trait_impl_entries(m, file@, impl_ids@);
    proof {
        lemma_sorted_distinct(entries_view(trait_impls@), all);
        lemma_same_elements_empty(entries_view(trait_impls@), all);
    }
    if trait_impls.len() > 0 {
        push_str(out, "## Trait Implementations\n\n");
        push_entry_list(out, &trait_impls);
        push_char(out, '\n');
    }
    assert(out@ =~= mid + trait_impls_text(m, file@, impl_ids@));
}

/// Render a type's markdown file: title, source reference, docs, definition,
/// impls. Empty when the item is not a documented struct, enum or union.
#[verifier::rlimit(40)]
pub fn render(ctx: &Ctx, item: &DocItem) -> (r: String)
    requires
        ctx.wf(),
    ensures
        r@ == type_file_text(*ctx.model, *item),
{
    let file: &str = match &item.file {
        Some(f) => f.as_str(),
        None => {
            proof {
                reveal_strlit("");
            }
            ""
        },
    };
    let raw = match ctx.raw(item.id) {
        Some(r) => r,
        None => {
            return String::new();
        },
    };
    let (keyword, definition, impls): (&str, String, &Vec<Id>) = match &raw.inner {
        ItemEnum::Struct(s) => ("Struct", struct_def(ctx, item.name.as_str(), s), &s.impls),
        ItemEnum::Enum(e) => ("Enum", enum_def(ctx, item.name.as_str(), e), &e.impls),
        ItemEnum::Union(u) => ("Union", union_def(ctx, item.name.as_str(), u), &u.impls),
        _ => {
            return String::new();
        },
    };
    let mut out = copy_str("# ");
    push_str(&mut out, keyword);
    push_str(&mut out, " `");
    let path = join_strings(&item.canonical.0, "::");
    push_str(&mut out, path.as_str());
    push_str(&mut out, "`\n\n");
    push_note(ctx, &mut out, item.id);
    if let Some(src) = ctx.source_ref(raw) {
        push_str(&mut out, src.as_str());
        push_str(&mut out, "\n\n");
    }
    push_item_docs(ctx, &mut out, file, raw, 1);
    push_str(&mut out, "## Definition\n\n");
    push_str(&mut out, "```rust\n");
    push_str(&mut out, definition.as_str());
    push_str(&mut out, "\n```\n\n");
    render_impls(ctx, &mut out, file, impls);
    assert(file@ == file_text(*item));
    let ghost parts = type_parts(*ctx.model, item.name@, raw.inner).unwrap();
    assert(keyword@ == parts.0 && definition@ == parts.1 && impls@ == parts.2);
    let ghost kw = parts.0;
    let ghost def = parts.1;
    let ghost ids = parts.2;
    assert(out@ =~= "# "@ + kw + " `"@ + join(item.canonical@, "::"@) + "`\n\n"@ + note_block(*ctx.model, item.id) + src_block(*raw)
        + item_docs_text(*ctx.model, file@, *raw, 1) + "## Definition\n\n"@ + "```rust\n"@ + def
        + "\n```\n\n"@ + impls_text(*ctx.model, file@, ids));
    finish(out)
}

/// A named variant's line ends with its explicit discriminant, when it has
/// one: ` = `, the discriminant's expression, then `,` and a line break;
/// without one it ends with the name and shape, then `,`.
pub proof fn law_variant_discriminant(m: DocModel, vid: Id)
    ensures
        lookup(m.krate.index@, vid) matches Some(it) ==> (it.inner matches ItemEnum::Variant(v) ==> (it.name matches Some(
            n,
        ) ==> {
            let pre = doc_comment_text(opt_name(it.docs), "    "@) + "    "@ + n@ + variant_shape(m, v.kind);
            match v.discriminant {
                Some(d) => variant_line(m, vid) == pre + " = "@ + d.expr@ + ",\n"@,
                None => variant_line(m, vid) == pre + ",\n"@,
            }
        })),
{
    if let Some(it) = lookup(m.krate.index@, vid) {
        if let ItemEnum::Variant(v) = it.inner {
            if let Some(n) = it.name {
                let pre = doc_comment_text(opt_name(it.docs), "    "@) + "    "@ + n@ + variant_shape(m, v.kind);
                match v.discriminant {
                    Some(d) => {
                        assert(variant_line(m, vid) =~= pre + " = "@ + d.expr@ + ",\n"@);
                    },
                    None => {
                        assert(variant_line(m, vid) =~= pre + ",\n"@);
                    },
                }
            }
        }
    }
}

} // verus!
