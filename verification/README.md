# rustdoc_public_md

Generates structured Markdown documentation for the public API of Rust crates
from rustdoc's JSON output: one file per module, type and trait, with inline
entries for functions, constants, statics, type aliases and macros, resolved
cross-links, and items reexported from dependency crates inlined and annotated
with their origin.

The library in `src/` is written in Verus and verified: every public function
states its result in its contract, over spec functions that model the JSON,
the documentation model and the produced text.

- `model/` — the crate model (`rustdoc.rs`), reachability of public items,
  canonical paths, stubs and output file assignment.
- `reexport.rs` — inlining items reexported from `--reexport-crate` crates.
- `render/` — Markdown for module, type and trait files, signatures, doc
  comments, links and deterministic ordering.
- `cli.rs`, `source.rs`, `parse.rs` — command-line values, the choice of where
  rustdoc JSON comes from, zstd decompression, and parsing the JSON with its
  format-version check.

`app/` is the command-line program around the library: argument parsing,
downloading or generating the JSON, reading its `format_version` field,
converting the parsed crate into the library's model, and writing the files.
