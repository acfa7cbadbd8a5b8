use rustdoc_public_md::render::links::{heading_slug, module_in_own_file, relative_link, slug_of_lowercase};

#[test]
fn sibling_link() {
    assert_eq!(relative_link("example/top/mod.md", "example/top/Bar.md"), "Bar.md");
}

#[test]
fn link_down_into_subdir() {
    assert_eq!(relative_link("example/lib.md", "example/top/mod.md"), "top/mod.md");
}

#[test]
fn link_up_and_over() {
    assert_eq!(relative_link("example/top/inner/Baz.md", "example/Foo.md"), "../../Foo.md");
}

#[test]
fn slug_basics() {
    assert_eq!(heading_slug("make_thing"), "make_thing");
    assert_eq!(heading_slug("My Heading!"), "my-heading");
}

#[test]
fn module_file_heuristic() {
    assert!(module_in_own_file("src/foo.rs", Some("foo")));
    assert!(module_in_own_file("src/foo/mod.rs", Some("foo")));
    assert!(!module_in_own_file("src/lib.rs", Some("foo")));
}

#[test]
fn link_to_self_is_the_file_name() {
    assert_eq!(relative_link("example/lib.md", "example/lib.md"), "lib.md");
}

#[test]
fn link_between_crates() {
    assert_eq!(relative_link("a/lib.md", "b/x/Y.md"), "../b/x/Y.md");
}

#[test]
fn slug_trims_and_lowercases_unicode() {
    assert_eq!(heading_slug("  Ünïcode Name  "), "ünïcode-name");
    assert_eq!(heading_slug("a-b_c.d"), "a-b_cd");
}

#[test]
fn unnamed_module_is_not_in_own_file() {
    assert!(!module_in_own_file("src/foo.rs", None));
    assert!(!module_in_own_file("src/bar/mod.rs", Some("foo")));
}

/// Follows a relative link from the directory of `from`, as a browser would.
fn follow(from: &str, link: &str) -> String {
    let mut dir: Vec<&str> = from.split('/').filter(|s| !s.is_empty()).collect();
    dir.pop();
    for seg in link.split('/').filter(|s| !s.is_empty()) {
        if seg == ".." {
            dir.pop();
        } else {
            dir.push(seg);
        }
    }
    dir.join("/")
}

#[test]
fn links_resolve_back_to_their_target() {
    let files = [
        "example/lib.md",
        "example/Foo.md",
        "example/top/mod.md",
        "example/top/Bar.md",
        "example/top/inner/mod.md",
        "example/top/inner/Baz.md",
        "other/lib.md",
        "other/deep/er/X.md",
    ];
    for from in files {
        for to in files {
            assert_eq!(follow(from, &relative_link(from, to)), to, "from {from} to {to}");
        }
    }
}

#[test]
fn interior_dot_segments_are_ignored() {
    assert_eq!(relative_link("a/./x.md", "a/y.md"), "y.md");
    assert_eq!(relative_link("a/x.md", "a/./b/y.md"), "b/y.md");
    assert!(module_in_own_file("src/foo/./mod.rs", Some("foo")));
}

#[test]
fn slug_of_lowercase_keeps_case_and_maps_spaces() {
    // The text is taken as already lowercased: nothing is folded here.
    assert_eq!(slug_of_lowercase("my heading!"), "my-heading");
    assert_eq!(slug_of_lowercase("Keep Case"), "Keep-Case");
    assert_eq!(slug_of_lowercase("a-b_c.d"), "a-b_cd");
    assert_eq!(slug_of_lowercase(""), "");
}
