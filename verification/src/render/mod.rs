//! Rendering: turn a documentation model into a set of markdown files.
//!
//! The driver walks the model's documented items and dispatches each file-owning
//! item to the module / type / trait renderer. Shared concerns live in
//! submodules: [`links`] (cross-references and source spans), [`doc_text`]
//! (doc-comment transforms), and [`signature`] (Rust signature formatting).

pub mod assoc;
pub mod doc_text;
pub mod links;
pub mod module;
pub mod signature;
pub mod sorting;
pub mod trait_;
pub mod type_;

use vstd::prelude::*;

use crate::model::rustdoc::{lookup, Id, Item};
use crate::model::{segs_lt, DocItem, DocKind, DocModel};
use crate::paths_text::{segments, split_segments};
use crate::render::doc_text::{render_docs, rendered_docs};
use crate::render::links::{def_entries, defs_text};
use crate::render::sorting::sorted_distinct;
use crate::text::{chars_of, copy_str, push_char, push_str, texts, trim_end};

verus! {

/// One generated markdown file: a path relative to the output root and its contents.
pub struct RenderedFile {
    pub path: String,
    pub contents: String,
}

/// Position of the first item with id `id`.
pub open spec fn doc_index(items: Seq<DocItem>, id: Id) -> Option<int>
    decreases items.len(),
{
    if items.len() == 0 {
        None
    } else if items[0].id == id {
        Some(0)
    } else {
        match doc_index(items.drop_first(), id) {
            Some(i) => Some(i + 1),
            None => None,
        }
    }
}

/// The (canonical path, file) of each module item that has a file, in order.
pub open spec fn module_entries(items: Seq<DocItem>) -> Seq<(Seq<Seq<char>>, Seq<char>)>
    decreases items.len(),
{
    if items.len() == 0 {
        seq![]
    } else {
        let r = module_entries(items.drop_last());
        let it = items.last();
        match it.file {
            Some(f) => if it.kind == DocKind::Module {
                r.push((it.canonical@, f@))
            } else {
                r
            },
            None => r,
        }
    }
}

/// The file of the last module entry at path `p`.
pub open spec fn module_file_in(es: Seq<(Seq<Seq<char>>, Seq<char>)>, p: Seq<Seq<char>>) -> Option<Seq<char>>
    decreases es.len(),
{
    if es.len() == 0 {
        None
    } else if es.last().0 == p {
        Some(es.last().1)
    } else {
        module_file_in(es.drop_last(), p)
    }
}

/// The view of the module-file table.
pub open spec fn module_table(v: Seq<(Vec<String>, String)>) -> Seq<(Seq<Seq<char>>, Seq<char>)> {
    v.map_values(|e: (Vec<String>, String)| (texts(e.0@), e.1@))
}

/// Shared rendering context: the model plus lookups used for cross-referencing.
pub struct Ctx<'a> {
    pub model: &'a DocModel,
    /// Canonical module path and that module's output file, for resolving
    /// links to inline items (which live in their module's file).
    pub module_files: Vec<(Vec<String>, String)>,
}

impl<'a> Ctx<'a> {
    /// The table of module files is that of the model.
    pub open spec fn wf(&self) -> bool {
        module_table(self.module_files@) == module_entries(self.model.items@)
    }

    /// A context for `model`.
    pub fn new(model: &'a DocModel) -> (c: Ctx<'a>)
        ensures
            c.model == model,
            c.wf(),
    {
        let mut module_files: Vec<(Vec<String>, String)> = Vec::new();
        let mut i: usize = 0;
        while i < model.items.len()
            invariant
                i <= model.items@.len(),
                module_table(module_files@) == module_entries(model.items@.take(i as int)),
            decreases model.items@.len() - i,
        {
            let it = &model.items[i];
            let ghost before = module_table(module_files@);
            assert(model.items@.take(i + 1).drop_last() =~= model.items@.take(i as int));
            assert(model.items@.take(i + 1).last() == *it);
            if it.kind == DocKind::Module {
                if let Some(f) = &it.file {
                    module_files.push((crate::model::reachability::copy_path(&it.canonical.0), copy_str(f.as_str())));
                    assert(module_table(module_files@) =~= before.push((it.canonical@, f@)));
                }
            }
            i += 1;
        }
        assert(model.items@.take(model.items@.len() as int) =~= model.items@);
        Ctx { model, module_files }
    }

    /// The placed item for `id`, if it is documented.
    pub fn doc(&self, id: Id) -> (r: Option<&'a DocItem>)
        ensures
            match doc_index(self.model.items@, id) {
                Some(i) => r == Some(&self.model.items@[i]),
                None => r is None,
            },
    {
        let items = &self.model.items;
        let mut i: usize = 0;
        assert(items@.skip(0) =~= items@);
        while i < items.len()
            invariant
                i <= items@.len(),
                items == &self.model.items,
                forall|j: int| 0 <= j < i ==> items@[j].id != id,
                doc_index(items@, id) == match doc_index(items@.skip(i as int), id) {
                    Some(k) => Some(k + i),
                    None => None,
                },
            decreases items@.len() - i,
        {
            assert(items@.skip(i as int)[0] == items@[i as int]);
            if items[i].id == id {
                return Some(&items[i]);
            }
            assert(items@.skip(i as int).drop_first() =~= items@.skip(i + 1));
            i += 1;
        }
        None
    }

    /// The raw item for `id`.
    pub fn raw(&self, id: Id) -> (r: Option<&'a Item>)
        ensures
            match r {
                Some(it) => lookup(self.model.krate.index@, id) == Some(*it),
                None => lookup(self.model.krate.index@, id) is None,
            },
    {
        self.model.krate.get(id)
    }
}


/// An item's docs rendered with headings below level `level` (when it has
/// non-empty docs), each followed by a blank line, then its intra-doc link
/// definitions and a blank line (when there are any).
pub open spec fn item_docs_text(m: DocModel, file: Seq<char>, raw: Item, level: nat) -> Seq<char> {
    let docs = match raw.docs {
        Some(d) => if d@.len() > 0 {
            rendered_docs(d@, level) + seq!['\n', '\n']
        } else {
            seq![]
        },
        None => seq![],
    };
    let defs = defs_text(sorted_distinct(def_entries(m, file, raw.links@)));
    docs + if defs.len() > 0 {
        defs.push('\n')
    } else {
        seq![]
    }
}

/// Appends an item's docs and intra-doc link definitions.
pub fn push_item_docs(ctx: &Ctx, out: &mut String, file: &str, raw: &Item, level: usize)
    requires
        ctx.wf(),
        level <= usize::MAX - 6,
    ensures
        final(out)@ == old(out)@ + item_docs_text(*ctx.model, file@, *raw, level as nat),
{
    let ghost start = out@;
    if let Some(docs) = &raw.docs {
        if !docs.as_str().is_empty() {
            let r = render_docs(docs.as_str(), level);
            push_str(out, r.as_str());
            push_str(out, "\n\n");
            proof {
                reveal_strlit("\n\n");
            }
        }
    }
    let defs = ctx.intra_doc_definitions(file, raw);
    if !defs.as_str().is_empty() {
        push_str(out, defs.as_str());
        push_char(out, '\n');
    }
    assert(out@ =~= start + item_docs_text(*ctx.model, file@, *raw, level as nat));
}


/// A file's text with trailing whitespace removed and one newline added.
pub fn finish(out: String) -> (r: String)
    ensures
        r@ == trim_end(out@).push('\n'),
{
    let cs = chars_of(out.as_str());
    let n = crate::text::ws_suffix(cs.as_slice(), cs.len());
    assert(cs@.take(cs@.len() as int) =~= cs@);
    let mut r = crate::text::range_string(cs.as_slice(), 0, cs.len() - n);
    push_char(&mut r, '\n');
    assert(cs@.subrange(0, cs@.len() - n) =~= trim_end(out@));
    r
}


// ---------------------------------------------------------------------------
// The driver

/// A rendered file as text: its path and its contents.
pub type FileText = (Seq<char>, Seq<char>);

/// The contents of the file of a documented item, by kind.
pub open spec fn file_contents(m: DocModel, item: DocItem) -> Seq<char> {
    if item.kind == DocKind::Module {
        module::module_file_text(m, item)
    } else if item.kind == DocKind::Type {
        type_::type_file_text(m, item)
    } else {
        trait_::trait_file_text(m, item)
    }
}

/// One file per module, type and trait that has a file, in model order.
pub open spec fn rendered_entries(m: DocModel, items: Seq<DocItem>) -> Seq<FileText>
    decreases items.len(),
{
    if items.len() == 0 {
        seq![]
    } else {
        let r = rendered_entries(m, items.drop_last());
        let it = items.last();
        match it.file {
            Some(f) => if it.kind == DocKind::Module || it.kind == DocKind::Type || it.kind == DocKind::Trait {
                r.push((f@, file_contents(m, it)))
            } else {
                r
            },
            None => r,
        }
    }
}

/// Whether path `a` sorts before path `b`, comparing component by component.
pub open spec fn path_lt(a: Seq<char>, b: Seq<char>) -> bool {
    segs_lt(segments(a), segments(b))
}

/// Where a stable insertion puts file `x` into `r`.
pub open spec fn file_insert_at(r: Seq<FileText>, x: FileText) -> int
    decreases r.len(),
{
    if r.len() == 0 {
        0
    } else if path_lt(x.0, r[0].0) {
        0
    } else {
        1 + file_insert_at(r.drop_first(), x)
    }
}

/// Files stably sorted by path.
pub open spec fn sort_files(s: Seq<FileText>) -> Seq<FileText>
    decreases s.len(),
{
    if s.len() == 0 {
        s
    } else {
        let r = sort_files(s.drop_last());
        r.insert(file_insert_at(r, s.last()), s.last())
    }
}

/// The text of rendered files.
pub open spec fn files_view(v: Seq<RenderedFile>) -> Seq<FileText> {
    v.map_values(|f: RenderedFile| (f.path@, f.contents@))
}

/// The segment lists of two paths compared.
fn path_before(a: &str, b: &str) -> (r: bool)
    ensures
        r == path_lt(a@, b@),
{
    let ac = chars_of(a);
    let bc = chars_of(b);
    let sa = split_segments(ac.as_slice());
    let sb = split_segments(bc.as_slice());
    let ghost av = sa@.map_values(|l: Vec<char>| l@);
    let ghost bv = sb@.map_values(|l: Vec<char>| l@);
    let mut i: usize = 0;
    assert(av.skip(0) =~= av);
    assert(bv.skip(0) =~= bv);
    while i < sa.len() && i < sb.len() && crate::text::chars_eq(sa[i].as_slice(), sb[i].as_slice())
        invariant
            i <= sa@.len(),
            i <= sb@.len(),
            av == sa@.map_values(|l: Vec<char>| l@),
            bv == sb@.map_values(|l: Vec<char>| l@),
            segs_lt(av, bv) == segs_lt(av.skip(i as int), bv.skip(i as int)),
        decreases sa@.len() - i,
    {
        assert(av.skip(i as int).drop_first() =~= av.skip(i + 1));
        assert(bv.skip(i as int).drop_first() =~= bv.skip(i + 1));
        assert(av.skip(i as int)[0] == sa@[i as int]@);
        assert(bv.skip(i as int)[0] == sb@[i as int]@);
        i += 1;
    }
    if i == sb.len() {
        false
    } else if i == sa.len() {
        true
    } else {
        assert(av.skip(i as int)[0] == sa@[i as int]@);
        assert(bv.skip(i as int)[0] == sb@[i as int]@);
        crate::text::chars_lt(sa[i].as_slice(), sb[i].as_slice())
    }
}

proof fn lemma_file_insert_at_scan(r: Seq<FileText>, x: FileText, p: int)
    requires
        0 <= p <= r.len(),
        forall|j: int| 0 <= j < p ==> !path_lt(x.0, #[trigger] r[j].0),
        p == r.len() || path_lt(x.0, r[p].0),
    ensures
        file_insert_at(r, x) == p,
    decreases p,
{
    if p > 0 {
        assert forall|j: int| 0 <= j < p - 1 implies !path_lt(x.0, #[trigger] r.drop_first()[j].0) by {
            assert(r.drop_first()[j] == r[j + 1]);
        }
        lemma_file_insert_at_scan(r.drop_first(), x, p - 1);
    }
}

/// Render every documented file in the model, sorted by path.
pub fn render(model: &DocModel) -> (r: Vec<RenderedFile>)
    ensures
        files_view(r@) == sort_files(rendered_entries(*model, model.items@)),
{
    let ctx = Ctx::new(model);
    let ghost all = rendered_entries(*model, model.items@);
    let mut files: Vec<RenderedFile> = Vec::new();
    let mut i: usize = 0;
    assert(files_view(files@) =~= sort_files(rendered_entries(*model, model.items@.take(0))));
    while i < model.items.len()
        invariant
            i <= model.items@.len(),
            ctx.wf(),
            ctx.model == model,
            files_view(files@) == sort_files(rendered_entries(*model, model.items@.take(i as int))),
        decreases model.items@.len() - i,
    {
        assert(model.items@.take(i + 1).drop_last() =~= model.items@.take(i as int));
        assert(model.items@.take(i + 1).last() == model.items@[i as int]);
        let item = &model.items[i];
        if let Some(path) = &item.file {
            let contents = match item.kind {
                DocKind::Module => Some(module::render(&ctx, item)),
                DocKind::Type => Some(type_::render(&ctx, item)),
                DocKind::Trait => Some(trait_::render(&ctx, item)),
                // Inline items are rendered inside their module's file.
                DocKind::Inline | DocKind::Other => None,
            };
            assert(contents is None ==> rendered_entries(*model, model.items@.take(i + 1)) == rendered_entries(*model, model.items@.take(i as int)));
            if let Some(contents) = contents {
                let ghost r0 = files_view(files@);
                let ghost x = (path@, contents@);
                assert(x == (path@, file_contents(*model, *item)));
                let mut pos: usize = 0;
                while pos < files.len() && !path_before(path.as_str(), files[pos].path.as_str())
                    invariant
                        pos <= files@.len(),
                        r0 == files_view(files@),
                        x.0 == path@,
                        forall|j: int| 0 <= j < pos ==> !path_lt(x.0, #[trigger] r0[j].0),
                    decreases files@.len() - pos,
                {
                    assert(r0[pos as int].0 == files@[pos as int].path@);
                    pos += 1;
                }
                proof {
                    if pos < files@.len() {
                        assert(r0[pos as int].0 == files@[pos as int].path@);
                    }
                    lemma_file_insert_at_scan(r0, x, pos as int);
                }
                files.insert(pos, RenderedFile { path: copy_str(path.as_str()), contents });
                assert(files_view(files@) =~= r0.insert(pos as int, x));
                let ghost s1 = rendered_entries(*model, model.items@.take(i + 1));
                assert(s1 == rendered_entries(*model, model.items@.take(i as int)).push(x));
                assert(s1.drop_last() =~= rendered_entries(*model, model.items@.take(i as int)));
                assert(s1.last() == x);
                assert(sort_files(s1) == r0.insert(file_insert_at(r0, x), x));
            }
        }
        i += 1;
    }
    assert(model.items@.take(model.items@.len() as int) =~= model.items@);
    files
}


proof fn lemma_file_insert_props(r: Seq<FileText>, x: FileText)
    ensures
        0 <= file_insert_at(r, x) <= r.len(),
        forall|j: int| 0 <= j < file_insert_at(r, x) ==> !path_lt(x.0, #[trigger] r[j].0),
        file_insert_at(r, x) < r.len() ==> path_lt(x.0, r[file_insert_at(r, x)].0),
    decreases r.len(),
{
    if r.len() > 0 && !path_lt(x.0, r[0].0) {
        lemma_file_insert_props(r.drop_first(), x);
        assert forall|j: int| 0 <= j < file_insert_at(r, x) implies !path_lt(x.0, #[trigger] r[j].0) by {
            if j > 0 {
                assert(r[j] == r.drop_first()[j - 1]);
            }
        }
    }
}

/// The rendered files come in path order (component by component) and are
/// the rendered entries, each taken once from them.
pub proof fn law_files_sorted(s: Seq<FileText>)
    ensures
        sort_files(s).len() == s.len(),
        forall|i: int, j: int| 0 <= i < j < s.len() ==> !path_lt((#[trigger] sort_files(s)[j]).0, (#[trigger] sort_files(s)[i]).0),
        forall|i: int| 0 <= i < s.len() ==> s.contains(#[trigger] sort_files(s)[i]),
    decreases s.len(),
{
    if s.len() > 0 {
        let r = sort_files(s.drop_last());
        let x = s.last();
        law_files_sorted(s.drop_last());
        lemma_file_insert_props(r, x);
        let p = file_insert_at(r, x);
        let r2 = r.insert(p, x);
        assert(sort_files(s) == r2);
        assert forall|i: int, j: int| 0 <= i < j < r2.len() implies !path_lt(r2[j].0, r2[i].0) by {
            if j < p {
                assert(r2[i] == r[i] && r2[j] == r[j]);
            } else if j == p {
                assert(r2[i] == r[i]);
            } else if i < p {
                assert(r2[i] == r[i] && r2[j] == r[j - 1]);
            } else if i == p {
                assert(r2[j] == r[j - 1]);
                let (a, b, c) = (segments(r[j - 1].0), segments(x.0), segments(r[p].0));
                if path_lt(r[j - 1].0, x.0) {
                    crate::model::lemma_segs_lt_trans(a, b, c);
                    if j - 1 > p {
                        crate::model::lemma_segs_lt_total(c, a);
                        if a == c {
                            crate::model::lemma_segs_lt_irrefl(a);
                        }
                    } else {
                        crate::model::lemma_segs_lt_irrefl(a);
                    }
                }
            } else {
                assert(r2[i] == r[i - 1] && r2[j] == r[j - 1]);
            }
        }
        assert forall|i: int| 0 <= i < s.len() implies s.contains(#[trigger] r2[i]) by {
            if i < p {
                assert(r2[i] == r[i]);
                let k = choose|k: int| 0 <= k < s.len() - 1 && s.drop_last()[k] == r[i];
                assert(s[k] == r[i]);
            } else if i == p {
                assert(s[s.len() - 1] == r2[i]);
            } else {
                assert(r2[i] == r[i - 1]);
                let k = choose|k: int| 0 <= k < s.len() - 1 && s.drop_last()[k] == r[i - 1];
                assert(s[k] == r[i - 1]);
            }
        }
    }
}

} // verus!
