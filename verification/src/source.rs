//! Decide how rustdoc JSON for a crate is acquired (downloaded from docs.rs or
//! generated locally) and decompress what docs.rs returns. The network and
//! filesystem work itself is done by the caller.

use vstd::prelude::*;

use crate::cli::{mode_of, Cli, CrateSpec, CrateSpecView, SourceMode};
use crate::text::{copy_str, push_str};

verus! {

/// Decompressed rustdoc JSON together with a human-readable origin for errors.
pub struct RawJson {
    pub bytes: Vec<u8>,
    pub origin: String,
}

/// Which concrete source to use after resolving auto-detection.
#[derive(Debug, Clone, Copy, PartialEq, Eq, Structural)]
pub enum EffectiveSource {
    DocsRs,
    Local,
}

/// The concrete source for `spec` under `mode`.
pub open spec fn source_for(spec: CrateSpec, mode: SourceMode) -> EffectiveSource {
    match mode {
        SourceMode::DocsRs => EffectiveSource::DocsRs,
        SourceMode::Local => EffectiveSource::Local,
        SourceMode::Auto => match spec {
            CrateSpec::Named { .. } => EffectiveSource::DocsRs,
            CrateSpec::Path(_) => EffectiveSource::Local,
        },
    }
}

/// Resolve auto-detection: named crates come from docs.rs, paths are local.
pub fn effective_source(spec: &CrateSpec, mode: SourceMode) -> (r: EffectiveSource)
    ensures
        r == source_for(*spec, mode),
{
    match mode {
        SourceMode::DocsRs => EffectiveSource::DocsRs,
        SourceMode::Local => EffectiveSource::Local,
        SourceMode::Auto => match spec {
            CrateSpec::Named { .. } => EffectiveSource::DocsRs,
            CrateSpec::Path(_) => EffectiveSource::Local,
        },
    }
}

/// What must be done to obtain a crate's rustdoc JSON.
#[derive(Debug)]
pub enum Acquisition {
    /// GET `url` (with a user agent) and zstd-decompress the body.
    Download { url: String },
    /// Run rustdoc (nightly, private items, all features) on `manifest`,
    /// optionally restricted to `package`; `origin` describes the source.
    Generate { manifest: String, package: Option<String>, origin: String },
}

/// The abstract value of an [`Acquisition`].
pub enum AcquisitionView {
    Download { url: Seq<char> },
    Generate { manifest: Seq<char>, package: Option<Seq<char>>, origin: Seq<char> },
}

impl View for Acquisition {
    type V = AcquisitionView;

    open spec fn view(&self) -> AcquisitionView {
        match self {
            Acquisition::Download { url } => AcquisitionView::Download { url: url@ },
            Acquisition::Generate { manifest, package, origin } => AcquisitionView::Generate {
                manifest: manifest@,
                package: match package {
                    Some(p) => Some(p@),
                    None => None,
                },
                origin: origin@,
            },
        }
    }
}

/// The docs.rs JSON URL for a crate, version (default `latest`) and target
/// (omitted when empty).
pub open spec fn docs_rs_url(name: Seq<char>, version: Option<Seq<char>>, target: Seq<char>) -> Seq<
    char,
> {
    let v = match version {
        Some(v) => v,
        None => "latest"@,
    };
    let t = if target.len() == 0 {
        seq![]
    } else {
        "/"@ + target
    };
    "https://docs.rs/crate/"@ + name + "/"@ + v + t + "/json"@
}

/// `path.join(file)` for a relative file name: a `/` is inserted unless
/// `path` is empty or already ends with one.
pub open spec fn join_path(path: Seq<char>, file: Seq<char>) -> Seq<char> {
    if path.len() == 0 || path.last() == '/' {
        path + file
    } else {
        path + "/"@ + file
    }
}

/// The manifest for a `--crate` path: the path itself when it names a file,
/// `Cargo.toml` inside it when it is a directory.
pub open spec fn manifest_for(path: Seq<char>, is_dir: bool) -> Seq<char> {
    if is_dir {
        join_path(path, "Cargo.toml"@)
    } else {
        path
    }
}

/// What acquiring `spec` amounts to, or the error that stops it.
/// `path_is_dir` reports whether a path spec names a directory.
pub open spec fn acquisition_of(
    spec: CrateSpec,
    mode: SourceMode,
    target: Seq<char>,
    manifest_path: Option<Seq<char>>,
    path_is_dir: bool,
) -> Result<AcquisitionView, Seq<char>> {
    match source_for(spec, mode) {
        EffectiveSource::DocsRs => match spec@ {
            CrateSpecView::Named { name, version } => Ok(
                AcquisitionView::Download { url: docs_rs_url(name, version, target) },
            ),
            CrateSpecView::Path(p) => Err(
                "cannot download `"@ + p
                    + "` from docs.rs: it is a local path. Drop `--from-docs-rs` or pass a crate name instead."@,
            ),
        },
        EffectiveSource::Local => match spec@ {
            CrateSpecView::Path(p) => {
                let m = manifest_for(p, path_is_dir);
                Ok(
                    AcquisitionView::Generate {
                        manifest: m,
                        package: None,
                        origin: "local crate at "@ + m,
                    },
                )
            },
            CrateSpecView::Named { name, .. } => match manifest_path {
                None => Err(
                    "`--local` with crate name `"@ + name
                        + "` requires `--manifest-path` pointing at the workspace that contains it"@,
                ),
                Some(m) => Ok(
                    AcquisitionView::Generate {
                        manifest: m,
                        package: Some(name),
                        origin: "local package `"@ + name + "` via "@ + m,
                    },
                ),
            },
        },
    }
}

/// The abstract value of an acquisition decision.
pub open spec fn acquisition_result_view(r: Result<Acquisition, String>) -> Result<
    AcquisitionView,
    Seq<char>,
> {
    match r {
        Ok(a) => Ok(a@),
        Err(e) => Err(e@),
    }
}

/// The optional manifest path, as text.
pub open spec fn opt_text(o: Option<String>) -> Option<Seq<char>> {
    match o {
        Some(s) => Some(s@),
        None => None,
    }
}

/// Decide how rustdoc JSON for `spec` is obtained, honoring the chosen
/// [`SourceMode`]. `path_is_dir` reports whether a path spec names a
/// directory on disk.
pub fn acquire(spec: &CrateSpec, cli: &Cli, path_is_dir: bool) -> (r: Result<Acquisition, String>)
    ensures
        acquisition_result_view(r) == acquisition_of(
            *spec,
            mode_of(cli.from_docs_rs, cli.local),
            cli.target@,
            opt_text(cli.manifest_path),
            path_is_dir,
        ),
{
    match effective_source(spec, cli.source_mode()) {
        EffectiveSource::DocsRs => acquire_from_docs_rs(spec, cli),
        EffectiveSource::Local => acquire_locally(spec, cli, path_is_dir),
    }
}

fn acquire_from_docs_rs(spec: &CrateSpec, cli: &Cli) -> (r: Result<Acquisition, String>)
    ensures
        acquisition_result_view(r) == match spec@ {
            CrateSpecView::Named { name, version } => Ok(
                AcquisitionView::Download { url: docs_rs_url(name, version, cli.target@) },
            ),
            CrateSpecView::Path(p) => Err(
                "cannot download `"@ + p
                    + "` from docs.rs: it is a local path. Drop `--from-docs-rs` or pass a crate name instead."@,
            ),
        },
{
    match spec {
        CrateSpec::Named { name, version } => {
            let mut url = copy_str("https://docs.rs/crate/");
            push_str(&mut url, name.as_str());
            push_str(&mut url, "/");
            match version {
                Some(v) => push_str(&mut url, v.as_str()),
                None => push_str(&mut url, "latest"),
            }
            if !cli.target.as_str().is_empty() {
                push_str(&mut url, "/");
                push_str(&mut url, cli.target.as_str());
            }
            push_str(&mut url, "/json");
            proof {
                let v = match version {
                    Some(v) => v@,
                    None => "latest"@,
                };
                let t = if cli.target@.len() == 0 {
                    seq![]
                } else {
                    "/"@ + cli.target@
                };
                assert(url@ =~= "https://docs.rs/crate/"@ + name@ + "/"@ + v + t + "/json"@);
            }
            Ok(Acquisition::Download { url })
        },
        CrateSpec::Path(path) => {
            let mut msg = copy_str("cannot download `");
            push_str(&mut msg, path.as_str());
            push_str(
                &mut msg,
                "` from docs.rs: it is a local path. Drop `--from-docs-rs` or pass a crate name instead.",
            );
            Err(msg)
        },
    }
}

fn acquire_locally(spec: &CrateSpec, cli: &Cli, path_is_dir: bool) -> (r: Result<
    Acquisition,
    String,
>)
    ensures
        acquisition_result_view(r) == match spec@ {
            CrateSpecView::Path(p) => {
                let m = manifest_for(p, path_is_dir);
                Ok(
                    AcquisitionView::Generate {
                        manifest: m,
                        package: None,
                        origin: "local crate at "@ + m,
                    },
                )
            },
            CrateSpecView::Named { name, .. } => match opt_text(cli.manifest_path) {
                None => Err(
                    "`--local` with crate name `"@ + name
                        + "` requires `--manifest-path` pointing at the workspace that contains it"@,
                ),
                Some(m) => Ok(
                    AcquisitionView::Generate {
                        manifest: m,
                        package: Some(name),
                        origin: "local package `"@ + name + "` via "@ + m,
                    },
                ),
            },
        },
{
    match spec {
        CrateSpec::Path(path) => {
            let manifest = manifest_path_for(path.as_str(), path_is_dir);
            let mut origin = copy_str("local crate at ");
            push_str(&mut origin, manifest.as_str());
            Ok(Acquisition::Generate { manifest, package: None, origin })
        },
        CrateSpec::Named { name, .. } => match &cli.manifest_path {
            None => {
                let mut msg = copy_str("`--local` with crate name `");
                push_str(&mut msg, name.as_str());
                push_str(
                    &mut msg,
                    "` requires `--manifest-path` pointing at the workspace that contains it",
                );
                Err(msg)
            },
            Some(m) => {
                let mut origin = copy_str("local package `");
                push_str(&mut origin, name.as_str());
                push_str(&mut origin, "` via ");
                push_str(&mut origin, m.as_str());
                Ok(
                    Acquisition::Generate {
                        manifest: copy_str(m.as_str()),
                        package: Some(copy_str(name.as_str())),
                        origin,
                    },
                )
            },
        },
    }
}

/// Resolve a `--crate` path to a `Cargo.toml`: accept either a manifest file
/// directly or a directory (`is_dir`) containing one.
pub fn manifest_path_for(path: &str, is_dir: bool) -> (r: String)
    ensures
        r@ == manifest_for(path@, is_dir),
{
    let mut r = copy_str(path);
    if is_dir {
        let pc = crate::text::chars_of(path);
        if pc.len() > 0 && pc[pc.len() - 1] != '/' {
            push_str(&mut r, "/");
        }
        push_str(&mut r, "Cargo.toml");
    }
    r
}

/// The stage at which zstd decompression failed.
#[derive(Debug, Clone, Copy, PartialEq, Eq, Structural)]
pub enum ZstdFailure {
    /// The frame header could not be read.
    Init,
    /// The frame body could not be decoded.
    Body,
}

/// Names the outcome of decoding a single zstd frame from `compressed` with
/// `ruzstd::decoding::StreamingDecoder` read to its end.
pub uninterp spec fn zstd_decoded(compressed: Seq<u8>) -> Result<Seq<u8>, ZstdFailure>;

/// `ruzstd::decoding::StreamingDecoder::new` on the compressed bytes, then
/// `read_to_end`: the contract names the outcome only.
#[verifier::external_body]
fn zstd_decode(compressed: &[u8]) -> (r: Result<Vec<u8>, ZstdFailure>)
    ensures
        match (r, zstd_decoded(compressed@)) {
            (Ok(v), Ok(w)) => v@ == w,
            (Err(a), Err(b)) => a == b,
            _ => false,
        },
{
    let mut decoder = match ruzstd::decoding::StreamingDecoder::new(compressed) {
        Ok(d) => d,
        Err(_) => return Err(ZstdFailure::Init),
    };
    let mut out = Vec::new();
    match std::io::Read::read_to_end(&mut decoder, &mut out) {
        Ok(_) => Ok(out),
        Err(_) => Err(ZstdFailure::Body),
    }
}

/// Decompress the zstd body that docs.rs returns.
pub fn decompress(compressed: &[u8]) -> (r: Result<Vec<u8>, String>)
    ensures
        match (r, zstd_decoded(compressed@)) {
            (Ok(v), Ok(w)) => v@ == w,
            (Err(e), Err(ZstdFailure::Init)) => e@
                == "initializing zstd decoder (unexpected response encoding?)"@,
            (Err(e), Err(ZstdFailure::Body)) => e@ == "decompressing zstd response body"@,
            _ => false,
        },
{
    match zstd_decode(compressed) {
        Ok(v) => Ok(v),
        Err(ZstdFailure::Init) => Err(
            copy_str("initializing zstd decoder (unexpected response encoding?)"),
        ),
        Err(ZstdFailure::Body) => Err(copy_str("decompressing zstd response body")),
    }
}

} // verus!
