use rustdoc_public_md::cli::{
    looks_like_path, parse_crate_spec, validate_crate_name, Cli, CrateSpec, SourceMode, DEFAULT_TARGET,
};

fn parse(s: &str) -> Result<CrateSpec, String> {
    parse_crate_spec(s, false)
}

fn cli_with(from_docs_rs: bool, local: bool) -> Cli {
    Cli {
        crates: vec![CrateSpec::Named { name: "serde".to_string(), version: None }],
        reexport_crates: vec![],
        out: "docs".to_string(),
        from_docs_rs,
        local,
        manifest_path: None,
        target: DEFAULT_TARGET.to_string(),
    }
}

#[test]
fn parses_bare_name() {
    assert_eq!(
        parse("serde").unwrap(),
        CrateSpec::Named {
            name: "serde".to_string(),
            version: None,
        },
    );
}

#[test]
fn parses_name_with_version() {
    assert_eq!(
        parse("serde@1.0.200").unwrap(),
        CrateSpec::Named {
            name: "serde".to_string(),
            version: Some("1.0.200".to_string()),
        },
    );
}

#[test]
fn version_dots_do_not_trigger_path_detection() {
    // `1.0.200` contains dots, but the `@` form keeps it a named crate.
    assert!(matches!(parse("serde@1.0.200").unwrap(), CrateSpec::Named { .. }));
}

#[test]
fn detects_paths() {
    for s in ["./mycrate", "../mycrate", "a/b", "crate/Cargo.toml"] {
        assert!(
            matches!(parse(s).unwrap(), CrateSpec::Path(_)),
            "expected `{s}` to parse as a path",
        );
    }
}

#[test]
fn windows_separator_is_a_path() {
    assert!(matches!(parse(r"C:\crates\mine").unwrap(), CrateSpec::Path(_)));
}

#[test]
fn rejects_empty_version() {
    assert!(parse("serde@").is_err());
}

#[test]
fn rejects_bogus_name() {
    assert!(parse("not a crate!").is_err());
}

#[test]
fn source_mode_reflects_flags() {
    assert_eq!(cli_with(false, false).source_mode(), SourceMode::Auto);
    assert_eq!(cli_with(true, false).source_mode(), SourceMode::DocsRs);
    assert_eq!(cli_with(false, true).source_mode(), SourceMode::Local);
}

#[test]
fn docs_rs_flag_wins_over_local() {
    assert_eq!(cli_with(true, true).source_mode(), SourceMode::DocsRs);
}

#[test]
fn empty_spec_is_rejected_with_message() {
    assert_eq!(parse("").unwrap_err(), "crate spec must not be empty");
}

#[test]
fn empty_version_message_names_the_spec() {
    assert_eq!(parse("serde@").unwrap_err(), "crate spec `serde@` has an empty version");
}

#[test]
fn bogus_name_message_names_the_character() {
    assert_eq!(
        parse("not a crate!").unwrap_err(),
        "invalid crate name `not a crate!`: unexpected character ` ` (use a path like `./not a crate!` to document a local crate)"
    );
}

#[test]
fn bad_name_before_version_is_rejected() {
    assert!(parse("se rde@1.0").is_err());
}

#[test]
fn existing_name_on_disk_is_a_path() {
    assert_eq!(parse_crate_spec("serde", true).unwrap(), CrateSpec::Path("serde".to_string()));
}

#[test]
fn path_detection_rules() {
    assert!(looks_like_path("~/src/x", false));
    assert!(looks_like_path("Cargo.toml", false));
    assert!(looks_like_path(".hidden", false));
    assert!(!looks_like_path("serde", false));
    assert!(!looks_like_path("serde-json_2", false));
}

#[test]
fn crate_name_validation() {
    assert!(validate_crate_name("serde_json-2").is_ok());
    assert!(validate_crate_name("").is_err());
    assert_eq!(validate_crate_name("").unwrap_err(), "crate name must not be empty");
}
