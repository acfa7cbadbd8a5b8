//! Generate structured markdown documentation for the public API of Rust
//! crates from a model of rustdoc's JSON output.
//!
//! The pipeline is: a parsed crate ([`model::rustdoc::Crate`]) is turned into
//! a documentation model ([`model::DocModel`]: which items are public, where
//! each is placed and which file it gets), items reexported from dependency
//! crates are inlined first ([`reexport`]), and the model is rendered into
//! markdown files ([`render`]).

pub mod cli;
pub mod model;
pub mod parse;
pub mod paths_text;
pub mod reexport;
pub mod render;
pub mod source;
pub mod text;

use vstd::prelude::*;

use crate::model::rustdoc::{Crate, Id};
use crate::model::{model_of, DocModel, ReexportOrigin};
use crate::render::{files_view, rendered_entries, sort_files, RenderedFile};

verus! {

/// Render the markdown files for one parsed crate. This is the pure
/// model → render core, with no I/O.
pub fn generate(krate: Crate) -> (r: Vec<RenderedFile>)
    ensures
        exists|m: DocModel|
            #![trigger model_of(m.items@, krate)]
            {
                &&& m.krate == krate
                &&& m.origins@.len() == 0
                &&& model_of(m.items@, krate)
                &&& files_view(r@) == sort_files(rendered_entries(m, m.items@))
            },
{
    generate_with_origins(krate, Vec::new())
}

/// Like [`generate`], but with reexport origins (from
/// [`reexport::inline_reexports`]) so items inlined from an external
/// dependency are annotated with their source.
pub fn generate_with_origins(krate: Crate, origins: Vec<(Id, ReexportOrigin)>) -> (r: Vec<RenderedFile>)
    ensures
        exists|m: DocModel|
            #![trigger model_of(m.items@, krate)]
            {
                &&& m.krate == krate
                &&& m.origins == origins
                &&& model_of(m.items@, krate)
                &&& files_view(r@) == sort_files(rendered_entries(m, m.items@))
            },
{
    let mut model = DocModel::build(krate);
    model.origins = origins;
    let files = render::render(&model);
    assert(model_of(model.items@, model.krate));
    files
}

} // verus!
