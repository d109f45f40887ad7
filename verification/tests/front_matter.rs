use design_token_tool::extract_front_matter;

#[test]
fn extracts_front_matter() {
    let markdown = "---\ncolors:\n  white: \"#ffffff\"\n---\n# Docs\n";
    let front_matter = extract_front_matter(markdown).expect("front matter should parse");

    assert_eq!(front_matter, "colors:\n  white: \"#ffffff\"\n");
}

#[test]
fn rejects_front_matter_without_closing_marker() {
    let error =
        extract_front_matter("---\ncolors:\n  white: \"#ffffff\"\n").expect_err("should fail");

    assert!(error.contains("closing"));
}

#[test]
fn rejects_empty_document() {
    let error = extract_front_matter("").expect_err("empty document should fail");
    assert_eq!(error, "missing YAML front matter: file is empty");
}

#[test]
fn rejects_document_without_opening_marker() {
    let error = extract_front_matter("# Title\n---\n").expect_err("missing opening should fail");
    assert_eq!(error, "missing YAML front matter: file must start with `---`");
}

#[test]
fn rejects_missing_closing_marker_exactly() {
    let error = extract_front_matter("---\na: 1\n").expect_err("missing closing should fail");
    assert_eq!(error, "missing YAML front matter closing `---`");
}

#[test]
fn allows_whitespace_around_markers() {
    let block = extract_front_matter("  ---  \na: 1\n\t--- \nbody").expect("markers may be padded");
    assert_eq!(block, "a: 1\n");
}

#[test]
fn closing_marker_may_end_the_document() {
    let block = extract_front_matter("---\na: 1\n---").expect("closing line without newline");
    assert_eq!(block, "a: 1\n");
}

#[test]
fn empty_block_is_allowed() {
    let block = extract_front_matter("---\n---\nbody\n").expect("empty block");
    assert_eq!(block, "");
}

#[test]
fn body_after_the_block_is_ignored() {
    let head = "---\nname: Example\n---\n";
    let plain = extract_front_matter(head).expect("front matter should parse");
    let with_body =
        extract_front_matter("---\nname: Example\n---\n# Notes\n---\nmore: text\n").expect("front matter should parse");
    assert_eq!(plain, "name: Example\n");
    assert_eq!(with_body, plain);
}

#[test]
fn crlf_block_keeps_its_line_endings() {
    let block = extract_front_matter("---\r\na\r\n---\r\n").expect("crlf document");
    assert_eq!(block, "a\r\n");
    let block = extract_front_matter("---\r\na: 1\r\nb: 2\r\n---\r\n").expect("crlf document");
    assert_eq!(block, "a: 1\r\nb: 2\r\n");
}

#[test]
fn crlf_block_with_multibyte_text_is_whole() {
    let block = extract_front_matter("---\r\na\r\nb\r\n\u{e9}\r\n---\r\n").expect("crlf document");
    assert_eq!(block, "a\r\nb\r\n\u{e9}\r\n");
}
