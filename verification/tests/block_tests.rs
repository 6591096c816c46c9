use dirbundle::block::bundle_blocks;
use dirbundle::block::extract_block;
use dirbundle::block::join_lines;
use dirbundle::block::render_block;
use dirbundle::block::split_lines;
use dirbundle::strutil::relative_to;
use dirbundle::strutil::str_eq;
use dirbundle::strutil::str_starts_with;

fn strings(items: &[&str]) -> Vec<String> {
    items.iter().map(|s| s.to_string()).collect()
}

#[test]
fn render_block_exact_format() {
    let block = render_block("a.txt", "hello\n");
    assert_eq!(block, "--- START FILE: a.txt ---\nhello\n--- END FILE ---\n\n");
}

#[test]
fn render_block_empty_content() {
    let block = render_block("empty", "");
    assert_eq!(block, "--- START FILE: empty ---\n--- END FILE ---\n\n");
}

#[test]
fn join_lines_terminates_each_line() {
    assert_eq!(join_lines(&strings(&["a", "b"])), "a\nb\n");
    assert_eq!(join_lines(&strings(&[])), "");
    assert_eq!(join_lines(&strings(&[""])), "\n");
}

#[test]
fn block_round_trip() {
    let lines = strings(&["fn main() {", "    body();", "}"]);
    let content = join_lines(&lines);
    let block = render_block("src/main.rs", content.as_str());
    let (rel, got) = extract_block(block.as_str()).unwrap();
    assert_eq!(rel, "src/main.rs");
    assert_eq!(got, content);
}

#[test]
fn lines_round_trip_through_the_artifact() {
    let lines = strings(&["first", "", "third"]);
    let content = join_lines(&lines);
    let block = render_block("notes/f.txt", content.as_str());
    let (rel, got) = extract_block(block.as_str()).unwrap();
    assert_eq!(rel, "notes/f.txt");
    assert_eq!(split_lines(got.as_str()), lines);
}

#[test]
fn split_lines_segments_at_newlines() {
    assert_eq!(split_lines("a\nb\n"), strings(&["a", "b"]));
    assert_eq!(split_lines(""), strings(&[]));
    assert_eq!(split_lines("\n"), strings(&[""]));
    // A final unterminated segment is kept whole.
    assert_eq!(split_lines("a\nb"), strings(&["a", "b"]));
}

#[test]
fn extract_rejects_text_without_markers() {
    assert!(extract_block("just some text\n").is_none());
    assert!(extract_block("").is_none());
    assert!(extract_block("--- START FILE: x ---\nno end marker\n").is_none());
}

#[test]
fn bundle_concatenates_blocks_in_order() {
    let files = vec![
        ("a.txt".to_string(), "one\n".to_string()),
        ("b/c.txt".to_string(), "two\nthree\n".to_string()),
    ];
    let artifact = bundle_blocks(&files);
    let expected = "--- START FILE: a.txt ---\none\n--- END FILE ---\n\n\
                    --- START FILE: b/c.txt ---\ntwo\nthree\n--- END FILE ---\n\n";
    assert_eq!(artifact, expected);
}

#[test]
fn bundle_twice_is_byte_identical() {
    let files = vec![
        ("x".to_string(), "1\n".to_string()),
        ("y".to_string(), "2\n".to_string()),
    ];
    assert_eq!(bundle_blocks(&files), bundle_blocks(&files));
}

#[test]
fn relative_paths_strip_the_root() {
    assert_eq!(relative_to("root", "root/a/b.txt"), "a/b.txt");
    assert_eq!(relative_to("root", "root"), "");
    // The fallback: a path outside the root is used whole.
    assert_eq!(relative_to("root", "elsewhere/c.txt"), "elsewhere/c.txt");
    assert_eq!(relative_to("root", "rooted/c.txt"), "rooted/c.txt");
}

#[test]
fn relative_paths_tolerate_trailing_slashes_on_the_root() {
    assert_eq!(relative_to("root/", "root/a/b.txt"), "a/b.txt");
    assert_eq!(relative_to("root//", "root/a/b.txt"), "a/b.txt");
    assert_eq!(relative_to("root/", "root"), "");
    assert_eq!(relative_to("/", "/etc/hosts"), "etc/hosts");
}

#[test]
fn string_helpers() {
    assert!(str_eq("abc", "abc"));
    assert!(!str_eq("abc", "abd"));
    assert!(!str_eq("abc", "ab"));
    assert!(str_starts_with("node_modules/pkg", "node_modules/"));
    assert!(!str_starts_with("node_module", "node_modules/"));
    assert!(str_starts_with("anything", ""));
}
