use rustdoc_public_md::cli::{Cli, CrateSpec, DEFAULT_TARGET};
use rustdoc_public_md::source::{acquire, decompress, manifest_path_for, Acquisition};

fn cli(from_docs_rs: bool, local: bool, manifest_path: Option<&str>) -> Cli {
    Cli {
        crates: vec![],
        reexport_crates: vec![],
        out: "docs".to_string(),
        from_docs_rs,
        local,
        manifest_path: manifest_path.map(str::to_string),
        target: DEFAULT_TARGET.to_string(),
    }
}

fn named(name: &str, version: Option<&str>) -> CrateSpec {
    CrateSpec::Named { name: name.to_string(), version: version.map(str::to_string) }
}

#[test]
fn named_crate_downloads_from_docs_rs() {
    match acquire(&named("serde", Some("1.0.200")), &cli(false, false, None), false).unwrap() {
        Acquisition::Download { url } => {
            assert_eq!(url, "https://docs.rs/crate/serde/1.0.200/x86_64-unknown-linux-gnu/json")
        },
        _ => panic!("expected a download"),
    }
}

#[test]
fn unpinned_crate_uses_latest() {
    let mut c = cli(false, false, None);
    c.target = String::new();
    match acquire(&named("serde", None), &c, false).unwrap() {
        Acquisition::Download { url } => assert_eq!(url, "https://docs.rs/crate/serde/latest/json"),
        _ => panic!("expected a download"),
    }
}

#[test]
fn path_crate_is_generated_locally() {
    match acquire(&CrateSpec::Path("./mycrate".to_string()), &cli(false, false, None), true).unwrap() {
        Acquisition::Generate { manifest, package, origin } => {
            assert_eq!(manifest, "./mycrate/Cargo.toml");
            assert!(package.is_none());
            assert_eq!(origin, "local crate at ./mycrate/Cargo.toml");
        },
        _ => panic!("expected generation"),
    }
}

#[test]
fn path_cannot_come_from_docs_rs() {
    let err = acquire(&CrateSpec::Path("./x".to_string()), &cli(true, false, None), false).unwrap_err();
    assert_eq!(
        err,
        "cannot download `./x` from docs.rs: it is a local path. Drop `--from-docs-rs` or pass a crate name instead."
    );
}

#[test]
fn local_name_needs_manifest_path() {
    let err = acquire(&named("serde", None), &cli(false, true, None), false).unwrap_err();
    assert_eq!(err, "`--local` with crate name `serde` requires `--manifest-path` pointing at the workspace that contains it");
    match acquire(&named("serde", None), &cli(false, true, Some("ws/Cargo.toml")), false).unwrap() {
        Acquisition::Generate { manifest, package, origin } => {
            assert_eq!(manifest, "ws/Cargo.toml");
            assert_eq!(package.as_deref(), Some("serde"));
            assert_eq!(origin, "local package `serde` via ws/Cargo.toml");
        },
        _ => panic!("expected generation"),
    }
}

#[test]
fn manifest_of_file_and_directory() {
    assert_eq!(manifest_path_for("a/Cargo.toml", false), "a/Cargo.toml");
    assert_eq!(manifest_path_for("a/", true), "a/Cargo.toml");
    assert_eq!(manifest_path_for("a", true), "a/Cargo.toml");
}

#[test]
fn zstd_round_trip() {
    let body = b"{\"root\": 0, \"index\": {}}".to_vec();
    let compressed = ruzstd::encoding::compress_to_vec(&body[..], ruzstd::encoding::CompressionLevel::Fastest);
    assert_ne!(compressed, body);
    assert_eq!(decompress(&compressed).unwrap(), body);
}

#[test]
fn garbage_is_not_zstd() {
    let err = decompress(b"not zstd at all").unwrap_err();
    assert_eq!(err, "initializing zstd decoder (unexpected response encoding?)");
}
