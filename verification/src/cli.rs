//! The command-line configuration and crate-spec parsing.

use vstd::prelude::*;

use crate::text::{
    chars_of, chars_lt, copy_str, ends_with, has_char, push_char, push_range, push_str,
    range_string, starts_with, starts_with_at,
};

verus! {

/// Default target triple used for docs.rs JSON downloads.
pub const DEFAULT_TARGET: &'static str = "x86_64-unknown-linux-gnu";

/// Generate structured markdown documentation for the public API of Rust crates.
pub struct Cli {
    /// Crate to document: a crate name, `name@version`, or a path to a local
    /// crate. Repeat to document multiple crates together.
    pub crates: Vec<CrateSpec>,
    /// Additional crate whose items are documented only where publicly
    /// reexported from a `--crate`. Same SPEC forms as `--crate`.
    pub reexport_crates: Vec<CrateSpec>,
    /// Output directory. The tool errors if it already exists and is non-empty.
    pub out: String,
    /// Force downloading rustdoc JSON from docs.rs for every crate.
    pub from_docs_rs: bool,
    /// Force generating rustdoc JSON locally for every crate.
    pub local: bool,
    /// Manifest path used when generating JSON locally.
    pub manifest_path: Option<String>,
    /// Target triple for docs.rs downloads.
    pub target: String,
}

/// How rustdoc JSON is obtained for a crate.
#[derive(Debug, Clone, Copy, PartialEq, Eq, Structural)]
pub enum SourceMode {
    /// Auto-detect from each [`CrateSpec`] (named ⇒ docs.rs, path ⇒ local).
    Auto,
    /// Always download from docs.rs.
    DocsRs,
    /// Always generate locally.
    Local,
}

/// The source mode selected by the two override flags.
pub open spec fn mode_of(from_docs_rs: bool, local: bool) -> SourceMode {
    if from_docs_rs {
        SourceMode::DocsRs
    } else if local {
        SourceMode::Local
    } else {
        SourceMode::Auto
    }
}

impl Cli {
    /// How the JSON source for each crate should be chosen.
    pub fn source_mode(&self) -> (m: SourceMode)
        ensures
            m == mode_of(self.from_docs_rs, self.local),
    {
        match (self.from_docs_rs, self.local) {
            (true, _) => SourceMode::DocsRs,
            (_, true) => SourceMode::Local,
            _ => SourceMode::Auto,
        }
    }
}

/// A crate to document, as named on the command line.
#[derive(Debug, Clone, PartialEq, Eq)]
pub enum CrateSpec {
    /// A registry crate, optionally pinned to a version.
    Named { name: String, version: Option<String> },
    /// A path to a local crate (directory or `Cargo.toml`).
    Path(String),
}

/// The abstract value of a [`CrateSpec`].
pub enum CrateSpecView {
    Named { name: Seq<char>, version: Option<Seq<char>> },
    Path(Seq<char>),
}

impl View for CrateSpec {
    type V = CrateSpecView;

    open spec fn view(&self) -> CrateSpecView {
        match self {
            CrateSpec::Named { name, version } => CrateSpecView::Named {
                name: name@,
                version: match version {
                    Some(v) => Some(v@),
                    None => None,
                },
            },
            CrateSpec::Path(p) => CrateSpecView::Path(p@),
        }
    }
}

/// Whether `s` should be treated as a filesystem path rather than a crate name:
/// it contains a separator, starts with `.` or `~`, ends with `.toml`, or
/// (`exists_on_disk`) already exists on disk.
pub open spec fn is_path_like(s: Seq<char>, exists_on_disk: bool) -> bool {
    ||| has_char(s, '/')
    ||| has_char(s, '\\')
    ||| starts_with(s, seq!['.'])
    ||| starts_with(s, seq!['~'])
    ||| ends_with(s, ".toml"@)
    ||| exists_on_disk
}

/// A character allowed in a crate name.
pub open spec fn is_name_char(c: char) -> bool {
    ||| ('a' <= c && c <= 'z')
    ||| ('A' <= c && c <= 'Z')
    ||| ('0' <= c && c <= '9')
    ||| c == '-'
    ||| c == '_'
}

/// The first character of `name` not allowed in a crate name.
pub open spec fn first_bad_char(name: Seq<char>) -> Option<char>
    decreases name.len(),
{
    if name.len() == 0 {
        None
    } else if !is_name_char(name[0]) {
        Some(name[0])
    } else {
        first_bad_char(name.drop_first())
    }
}

/// The message for a crate name holding `bad`.
pub open spec fn bad_name_message(name: Seq<char>, bad: char) -> Seq<char> {
    "invalid crate name `"@ + name + "`: unexpected character `"@ + seq![bad]
        + "` (use a path like `./"@ + name + "` to document a local crate)"@
}

/// The outcome of validating a crate name.
pub open spec fn name_check(name: Seq<char>) -> Result<(), Seq<char>> {
    if name.len() == 0 {
        Err("crate name must not be empty"@)
    } else {
        match first_bad_char(name) {
            Some(bad) => Err(bad_name_message(name, bad)),
            None => Ok(()),
        }
    }
}

/// The outcome of parsing a `--crate` / `--reexport-crate` value.
pub open spec fn crate_spec_of(s: Seq<char>, exists_on_disk: bool) -> Result<
    CrateSpecView,
    Seq<char>,
> {
    if s.len() == 0 {
        Err("crate spec must not be empty"@)
    } else if is_path_like(s, exists_on_disk) {
        Ok(CrateSpecView::Path(s))
    } else {
        match crate::text::next_index_of(s, '@', 0) {
            Some(i) => {
                let name = s.take(i);
                let version = s.skip(i + 1);
                match name_check(name) {
                    Err(e) => Err(e),
                    Ok(_) => if version.len() == 0 {
                        Err("crate spec `"@ + s + "` has an empty version"@)
                    } else {
                        Ok(CrateSpecView::Named { name, version: Some(version) })
                    },
                }
            },
            None => match name_check(s) {
                Err(e) => Err(e),
                Ok(_) => Ok(CrateSpecView::Named { name: s, version: None }),
            },
        }
    }
}

/// The abstract value of a parse result.
pub open spec fn spec_result_view(r: Result<CrateSpec, String>) -> Result<CrateSpecView, Seq<char>> {
    match r {
        Ok(c) => Ok(c@),
        Err(e) => Err(e@),
    }
}

/// Parse a `--crate` / `--reexport-crate` value into a [`CrateSpec`].
///
/// Detection: anything path-like (contains a separator, starts with `.`/`~`,
/// ends with `.toml`, or already exists on disk, which the caller reports in
/// `exists_on_disk`) is a [`CrateSpec::Path`]; otherwise it is a named crate,
/// with an optional `@version` suffix.
pub fn parse_crate_spec(s: &str, exists_on_disk: bool) -> (r: Result<CrateSpec, String>)
    ensures
        spec_result_view(r) == crate_spec_of(s@, exists_on_disk),
{
    let sc = chars_of(s);
    if sc.len() == 0 {
        return Err(copy_str("crate spec must not be empty"));
    }
    if looks_like_path(s, exists_on_disk) {
        return Ok(CrateSpec::Path(copy_str(s)));
    }
    match crate::text::find_char(sc.as_slice(), '@', 0) {
        Some(i) => {
            let name = range_string(sc.as_slice(), 0, i);
            let version = range_string(sc.as_slice(), i + 1, sc.len());
            assert(sc@.subrange(0, i as int) =~= sc@.take(i as int));
            assert(sc@.subrange(i + 1, sc@.len() as int) =~= sc@.skip(i + 1));
            match validate_crate_name(name.as_str()) {
                Err(e) => Err(e),
                Ok(()) => {
                    if version.as_str().is_empty() {
                        let mut msg = copy_str("crate spec `");
                        push_str(&mut msg, s);
                        push_str(&mut msg, "` has an empty version");
                        Err(msg)
                    } else {
                        Ok(CrateSpec::Named { name, version: Some(version) })
                    }
                },
            }
        },
        None => match validate_crate_name(s) {
            Err(e) => Err(e),
            Ok(()) => Ok(CrateSpec::Named { name: copy_str(s), version: None }),
        },
    }
}

/// Whether `s` should be treated as a filesystem path rather than a crate name.
pub fn looks_like_path(s: &str, exists_on_disk: bool) -> (b: bool)
    ensures
        b == is_path_like(s@, exists_on_disk),
{
    let sc = chars_of(s);
    let toml = chars_of(".toml");
    let dot = ['.'];
    let tilde = ['~'];
    assert(dot@ =~= seq!['.']);
    assert(tilde@ =~= seq!['~']);
    assert(sc@.skip(0) =~= sc@);
    let ends_toml = if toml.len() <= sc.len() {
        let r = starts_with_at(sc.as_slice(), sc.len() - toml.len(), toml.as_slice());
        assert(sc@.skip(sc@.len() - toml@.len()).take(toml@.len() as int) =~= sc@.skip(
            sc@.len() - toml@.len(),
        ));
        r
    } else {
        false
    };
    crate::text::contains_char(sc.as_slice(), '/') || crate::text::contains_char(
        sc.as_slice(),
        '\\',
    ) || starts_with_at(sc.as_slice(), 0, &dot) || starts_with_at(sc.as_slice(), 0, &tilde)
        || ends_toml || exists_on_disk
}

/// Whether `c` may appear in a crate name.
fn is_name_char_exec(c: char) -> (b: bool)
    ensures
        b == is_name_char(c),
{
    ('a' <= c && c <= 'z') || ('A' <= c && c <= 'Z') || ('0' <= c && c <= '9') || c == '-' || c
        == '_'
}

/// Validate that `name` is a plausible crate name (alphanumerics, `-`, `_`).
pub fn validate_crate_name(name: &str) -> (r: Result<(), String>)
    ensures
        match (r, name_check(name@)) {
            (Ok(()), Ok(())) => true,
            (Err(e), Err(m)) => e@ == m,
            _ => false,
        },
{
    let nc = chars_of(name);
    if nc.len() == 0 {
        return Err(copy_str("crate name must not be empty"));
    }
    let mut i: usize = 0;
    assert(nc@.skip(0) =~= nc@);
    while i < nc.len()
        invariant
            i <= nc@.len(),
            nc@ == name@,
            first_bad_char(nc@) == first_bad_char(nc@.skip(i as int)),
        decreases nc@.len() - i,
    {
        assert(nc@.skip(i as int)[0] == nc@[i as int]);
        if !is_name_char_exec(nc[i]) {
            let bad = nc[i];
            let mut msg = copy_str("invalid crate name `");
            push_str(&mut msg, name);
            push_str(&mut msg, "`: unexpected character `");
            push_char(&mut msg, bad);
            push_str(&mut msg, "` (use a path like `./");
            push_str(&mut msg, name);
            push_str(&mut msg, "` to document a local crate)");
            assert(first_bad_char(nc@.skip(i as int)) == Some(bad));
            assert(msg@ =~= bad_name_message(name@, bad));
            assert(name_check(name@) == Err::<(), Seq<char>>(bad_name_message(name@, bad)));
            return Err(msg);
        }
        assert(nc@.skip(i as int).drop_first() =~= nc@.skip(i + 1));
        i += 1;
    }
    assert(nc@.skip(nc@.len() as int) =~= Seq::<char>::empty());
    Ok(())
}

} // verus!
