use alfred::configuration::is_workspace_relative_path;
use alfred::path_encoding::{
    decode_relative_path, decode_unix_segment_bytes, normalize_inbound_separators,
    render_component, render_path, render_relative_path,
};

#[test]
fn inbound_separator_normalization_preserves_escape_sequences() {
    let input = r"dir\file";
    let normalized = normalize_inbound_separators(input);
    assert_eq!(normalized, "dir/file");

    let input = r"dir\xFF\file";
    let normalized = normalize_inbound_separators(input);
    assert_eq!(normalized, r"dir\xFF/file");

    let input = r"dir\u{D800}\file";
    let normalized = normalize_inbound_separators(input);
    assert_eq!(normalized, r"dir\u{D800}/file");

    let input = r"..\secrets.txt";
    let normalized = normalize_inbound_separators(input);
    assert_eq!(normalized, "../secrets.txt");

    assert!(is_workspace_relative_path("docs/design/ProjectPlan.md"));
    assert!(!is_workspace_relative_path("..\\secrets.txt"));
    assert!(!is_workspace_relative_path("../secrets.txt"));
}

#[test]
fn render_path_keeps_absolute_root() {
    let rendered = render_path(b"/");
    assert_eq!(rendered.text, "/");
}

#[test]
fn renders_non_utf8_bytes_as_xnn_and_round_trips() {
    let mut bytes = b"bad-".to_vec();
    bytes.push(0xFF);
    bytes.extend_from_slice(b".txt");

    let rendered = render_component(bytes.as_slice());
    assert!(rendered.was_encoded);
    assert_eq!(rendered.text, "bad-\\xFF.txt");

    let decoded = decode_relative_path(rendered.text.as_str());
    assert_eq!(decoded, bytes);
}

#[test]
fn valid_components_are_rendered_unchanged() {
    let rendered = render_component("notes.txt".as_bytes());
    assert!(!rendered.was_encoded);
    assert_eq!(rendered.text, "notes.txt");
}

#[test]
fn backslashes_in_invalid_components_are_doubled() {
    let mut bytes = b"a\\b".to_vec();
    bytes.push(0xC3);
    let rendered = render_component(bytes.as_slice());
    assert!(rendered.was_encoded);
    assert_eq!(rendered.text, "a\\\\b\\xC3");
    assert_eq!(decode_unix_segment_bytes(rendered.text.as_bytes()), bytes);
}

#[test]
fn render_relative_path_drops_dot_segments_and_root() {
    let rendered = render_relative_path(b"/a/./b//c/");
    assert_eq!(rendered.text, "a/b/c");
    assert!(!rendered.was_encoded);
    let absolute = render_path(b"/a/./b");
    assert_eq!(absolute.text, "/a/b");
    let relative = render_path(b"x/../y");
    assert_eq!(relative.text, "x/../y");
}

#[test]
fn decode_relative_path_walks_parent_segments() {
    assert_eq!(decode_relative_path("a/b/../c"), b"a/c".to_vec());
    assert_eq!(decode_relative_path("./a//b/"), b"a/b".to_vec());
    assert_eq!(decode_relative_path("../a"), b"a".to_vec());
    assert_eq!(decode_relative_path("a\\x41"), b"aA".to_vec());
}

#[test]
fn a_literal_backslash_escape_is_kept_whole() {
    assert_eq!(normalize_inbound_separators(r"a\\b"), r"a\\b");
    assert_eq!(normalize_inbound_separators(r"a\\\b"), r"a\\/b");
    assert_eq!(normalize_inbound_separators(r"a\b"), "a/b");
    assert_eq!(normalize_inbound_separators(r"a\"), "a/");
}

#[test]
fn an_invalid_component_with_backslashes_decodes_to_its_bytes() {
    let bytes: Vec<u8> = vec![b'a', b'\\', 0xFE, b'\\', b'b', 0x80];
    let rendered = render_component(bytes.as_slice());
    assert!(rendered.was_encoded);
    assert_eq!(rendered.text, "a\\\\\\xFE\\\\b\\x80");
    assert_eq!(decode_relative_path(rendered.text.as_str()), bytes);
}
