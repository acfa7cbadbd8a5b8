use rustdoc_public_md::parse::{check_format_version, parse_crate};

#[test]
fn matching_format_version_passes() {
    assert_eq!(check_format_version("somewhere", 61, 61), Ok(()));
}

#[test]
fn mismatched_format_version_is_a_clear_error() {
    let e = check_format_version("https://docs.rs/crate/serde/latest/json", 57, 61).unwrap_err();
    assert_eq!(
        e,
        "rustdoc JSON from https://docs.rs/crate/serde/latest/json has format_version 57, \
but this build supports format_version 61.\nThe JSON was produced by a different rustdoc/toolchain. \
Regenerate it with a matching nightly toolchain, or rebuild this tool against a `rustdoc-types` \
version that targets format_version 57."
    );
}

#[test]
fn reports_origin_on_invalid_json() {
    let err = parse_crate(b"not json", "somewhere", Ok(61)).unwrap_err();
    assert!(err.to_string().contains("somewhere"));
}

#[test]
fn invalid_json_error_names_the_stage_and_origin() {
    let err = parse_crate(b"not json", "somewhere", Ok(61)).unwrap_err();
    assert!(err.starts_with("parsing rustdoc JSON from somewhere: "));
    // The parse error itself follows the context.
    assert!(err.len() > "parsing rustdoc JSON from somewhere: ".len());
}

#[test]
fn failed_probe_is_a_reading_error() {
    let err = parse_crate(b"{}", "here", Err(String::from("missing field"))).unwrap_err();
    assert_eq!(err, "reading rustdoc JSON from here: missing field");
}

#[test]
fn mismatched_probe_is_the_version_error() {
    let err = parse_crate(b"{}", "here", Ok(57)).unwrap_err();
    assert_eq!(Err(err), check_format_version("here", 57, 61));
}

#[test]
fn incomplete_crate_json_fails_to_parse() {
    let err = parse_crate(b"{\"format_version\": 61}", "here", Ok(61)).unwrap_err();
    assert!(err.starts_with("parsing rustdoc JSON from here: missing field"));
}

#[test]
fn minimal_crate_json_parses() {
    let json = br#"{"root":7,"crate_version":null,"includes_private":false,"index":{},"paths":{},"external_crates":{},"target":{"triple":"x86_64-unknown-linux-gnu","target_features":[]},"format_version":61}"#;
    let k = parse_crate(json, "here", Ok(61)).unwrap();
    assert_eq!(k.root.0, 7);
    assert_eq!(k.format_version, 61);
    assert!(k.index.is_empty());
}
