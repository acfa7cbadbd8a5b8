use rustdoc_public_md::render::doc_text::render_docs;

#[test]
fn plain_text_passes_through() {
    assert_eq!(render_docs("Hello world.", 1), "Hello world.");
}

#[test]
fn headings_are_shifted() {
    let docs = "# Examples\nsome text";
    // Item title is an h1, so an embedded h1 becomes h2.
    assert_eq!(render_docs(docs, 1), "## Examples\nsome text");
}

#[test]
fn headings_clamp_at_six() {
    assert_eq!(render_docs("###### Deep", 3), "###### Deep");
}

#[test]
fn hidden_doctest_lines_stripped() {
    let docs = "```\n# use std::io;\nlet x = 1;\n```";
    assert_eq!(render_docs(docs, 1), "```\nlet x = 1;\n```");
}

#[test]
fn attributes_in_code_are_kept() {
    let docs = "```\n#[derive(Debug)]\nstruct S;\n```";
    assert_eq!(render_docs(docs, 1), "```\n#[derive(Debug)]\nstruct S;\n```");
}

#[test]
fn escaped_hash_is_unescaped() {
    let docs = "```\n## not hidden\n```";
    assert_eq!(render_docs(docs, 1), "```\n# not hidden\n```");
}

#[test]
fn heading_inside_code_is_not_shifted() {
    let docs = "```\n# hidden\nlet a = 1;\n```";
    // The `# hidden` is a hidden doctest line, not a heading.
    assert_eq!(render_docs(docs, 2), "```\nlet a = 1;\n```");
}

#[test]
fn level_two_heading_moves_two_levels_down() {
    assert_eq!(render_docs("## Panics", 2), "#### Panics");
}

#[test]
fn tilde_fences_and_crlf_lines() {
    let docs = "~~~\r\n# hidden\r\nshown\r\n~~~";
    assert_eq!(render_docs(docs, 1), "~~~\nshown\n~~~");
}

#[test]
fn bare_hash_line_in_code_is_hidden() {
    assert_eq!(render_docs("```\n#\nx\n```", 1), "```\nx\n```");
}

#[test]
fn empty_docs_render_empty() {
    assert_eq!(render_docs("", 1), "");
}
