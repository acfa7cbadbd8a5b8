//! Parsing rustdoc JSON into `rustdoc_types::Crate`, with the
//! `format_version` compatibility check made first: a mismatch fails with a
//! clear error instead of an opaque one about an unexpected shape.

use vstd::prelude::*;

use crate::model::paths::{decimal, push_decimal};
use crate::text::{copy_str, push_str};

use rustdoc_types::Crate as ParsedCrate;

verus! {

/// The error for JSON from `origin` with format version `found` when this
/// build reads version `expected`; none when they agree.
pub open spec fn version_error_text(origin: Seq<char>, found: nat, expected: nat) -> Option<Seq<char>> {
    if found == expected {
        None
    } else {
        Some(
            "rustdoc JSON from "@ + origin + " has format_version "@ + decimal(found)
                + ", but this build supports format_version "@ + decimal(expected)
                + ".\nThe JSON was produced by a different rustdoc/toolchain. Regenerate it with a matching nightly toolchain, or rebuild this tool against a `rustdoc-types` version that targets format_version "@
                + decimal(found) + "."@,
        )
    }
}

/// Checks the format version `found` of JSON from `origin` against the
/// supported `expected`: an error naming both when they differ.
pub fn check_format_version(origin: &str, found: u32, expected: u32) -> (r: Result<(), String>)
    ensures
        match r {
            Err(e) => version_error_text(origin@, found as nat, expected as nat) == Some(e@),
            Ok(()) => version_error_text(origin@, found as nat, expected as nat) is None,
        },
{
    if found == expected {
        return Ok(());
    }
    let mut w = copy_str("rustdoc JSON from ");
    push_str(&mut w, origin);
    push_str(&mut w, " has format_version ");
    push_decimal(&mut w, found as usize);
    push_str(&mut w, ", but this build supports format_version ");
    push_decimal(&mut w, expected as usize);
    push_str(
        &mut w,
        ".\nThe JSON was produced by a different rustdoc/toolchain. Regenerate it with a matching nightly toolchain, or rebuild this tool against a `rustdoc-types` version that targets format_version ",
    );
    push_decimal(&mut w, found as usize);
    push_str(&mut w, ".");
    Err(w)
}

/// `rustdoc_types::Crate`: a crate's rustdoc JSON as the outside crate parses it.
#[verifier::external_type_specification]
#[verifier::external_body]
pub struct ExRustdocCrate(ParsedCrate);

/// The JSON format version that the parsed types describe.
pub open spec fn supported_format_version() -> nat {
    61
}

/// `rustdoc_types::FORMAT_VERSION`: the format version of the JSON that the
/// `rustdoc_types` types this crate builds against describe.
#[verifier::external_body]
fn format_version() -> (v: u32)
    ensures
        v == supported_format_version(),
{
    rustdoc_types::FORMAT_VERSION
}

/// Names the outcome of `serde_json::from_slice::<rustdoc_types::Crate>` on
/// `bytes`: none when the bytes parse, else the parse error's message.
pub uninterp spec fn rustdoc_json_error(bytes: Seq<u8>) -> Option<Seq<char>>;

/// Whether `bytes` parse as rustdoc JSON of the supported shape.
pub open spec fn rustdoc_json_ok(bytes: Seq<u8>) -> bool {
    rustdoc_json_error(bytes) is None
}

/// `serde_json::from_slice::<rustdoc_types::Crate>`, its error rendered with
/// `to_string`. Whether it succeeds, and the error's message, are named by
/// `rustdoc_json_error`; what the parsed crate holds is left unsaid, since its
/// maps carry a hasher that each process seeds.
#[verifier::external_body]
fn parse_rustdoc_json(bytes: &[u8]) -> (r: Result<ParsedCrate, String>)
    ensures
        match r {
            Ok(_) => rustdoc_json_error(bytes@) is None,
            Err(e) => rustdoc_json_error(bytes@) == Some(e@),
        },
{
    match serde_json::from_slice::<ParsedCrate>(bytes) {
        Ok(k) => Ok(k),
        Err(e) => Err(e.to_string()),
    }
}

/// The outcome of parsing rustdoc JSON `bytes` from `origin`, given the
/// outcome `probe` of reading its `format_version` alone.
pub open spec fn parse_outcome(bytes: Seq<u8>, origin: Seq<char>, probe: Result<u32, String>) -> Result<(), Seq<char>> {
    match probe {
        Err(p) => Err("reading rustdoc JSON from "@ + origin + ": "@ + p@),
        Ok(v) => match version_error_text(origin, v as nat, supported_format_version()) {
            Some(t) => Err(t),
            None => match rustdoc_json_error(bytes) {
                None => Ok(()),
                Some(c) => Err("parsing rustdoc JSON from "@ + origin + ": "@ + c),
            },
        },
    }
}

/// Parse rustdoc JSON `bytes`, checking the format version first. `probe` is
/// the outcome of reading the JSON's `format_version` field alone; `origin`
/// describes where the bytes came from (a URL or file path) and is woven into
/// error messages.
pub fn parse_crate(bytes: &[u8], origin: &str, probe: Result<u32, String>) -> (r: Result<ParsedCrate, String>)
    ensures
        match (r, parse_outcome(bytes@, origin@, probe)) {
            (Ok(_), Ok(())) => true,
            (Err(e), Err(t)) => e@ == t,
            _ => false,
        },
{
    let found = match probe {
        Ok(v) => v,
        Err(p) => {
            let mut w = copy_str("reading rustdoc JSON from ");
            push_str(&mut w, origin);
            push_str(&mut w, ": ");
            push_str(&mut w, p.as_str());
            return Err(w);
        },
    };
    let checked = check_format_version(origin, found, format_version());
    if let Err(e) = checked {
        return Err(e);
    }
    match parse_rustdoc_json(bytes) {
        Ok(k) => Ok(k),
        Err(c) => {
            let mut w = copy_str("parsing rustdoc JSON from ");
            push_str(&mut w, origin);
            push_str(&mut w, ": ");
            push_str(&mut w, c.as_str());
            Err(w)
        },
    }
}

} // verus!
