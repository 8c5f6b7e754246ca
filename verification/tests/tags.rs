use obx::tags::extract_tags;
use obx::tags::split_lines;
use obx::tags::delim_line;

#[test]
fn tags_list_yields_each_item() {
    let content = "---\ntags: [a, b]\n---\nbody text\n";
    let tags = extract_tags(content);
    assert_eq!(tags, vec!["a".to_string(), "b".to_string()]);
}

#[test]
fn tags_single_string_yields_one_tag() {
    let content = "---\ntags: a\n---\nbody\n";
    let tags = extract_tags(content);
    assert_eq!(tags, vec!["a".to_string()]);
}

#[test]
fn no_metadata_block_yields_no_tags() {
    let content = "just a note\nwith lines\n";
    let tags = extract_tags(content);
    assert!(tags.is_empty());
}

#[test]
fn malformed_metadata_yields_no_tags() {
    let content = "---\ntags: [unclosed\n---\nbody\n";
    let tags = extract_tags(content);
    assert!(tags.is_empty());
}

#[test]
fn empty_content_yields_no_tags() {
    assert!(extract_tags("").is_empty());
}

#[test]
fn empty_block_yields_no_tags() {
    let content = "---\n---\nbody\n";
    assert!(extract_tags(content).is_empty());
}

#[test]
fn unterminated_block_is_still_read() {
    // the block reaches the end of the file without a closing delimiter
    let content = "---\ntags: [a, b]\n";
    let tags = extract_tags(content);
    assert_eq!(tags, vec!["a".to_string(), "b".to_string()]);
}

#[test]
fn non_string_items_are_skipped() {
    let content = "---\ntags: [a, 7, b]\n---\n";
    let tags = extract_tags(content);
    assert_eq!(tags, vec!["a".to_string(), "b".to_string()]);
}

#[test]
fn missing_tags_field_yields_no_tags() {
    let content = "---\ntitle: hello\n---\nbody\n";
    assert!(extract_tags(content).is_empty());
}

#[test]
fn padded_delimiter_lines_count() {
    let content = " --- \ntags: a\n  ---\n";
    let tags = extract_tags(content);
    assert_eq!(tags, vec!["a".to_string()]);
}

#[test]
fn split_lines_matches_line_endings() {
    let lines = split_lines("a\r\nb\nc");
    assert_eq!(lines, vec!["a".to_string(), "b".to_string(), "c".to_string()]);
    assert_eq!(split_lines(""), Vec::<String>::new());
    assert_eq!(split_lines("\n"), vec!["".to_string()]);
}

#[test]
fn crlf_line_endings_are_accepted() {
    let content = "---\r\ntags: [a, b]\r\n---\r\nbody\r\n";
    let tags = extract_tags(content);
    assert_eq!(tags, vec!["a".to_string(), "b".to_string()]);
}

#[test]
fn delim_line_rules() {
    assert!(delim_line("---"));
    assert!(delim_line("  ---\t"));
    assert!(!delim_line("--"));
    assert!(!delim_line("----"));
    assert!(!delim_line("--- x"));
    assert!(!delim_line(""));
}
