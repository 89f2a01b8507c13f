//! Unit tests of the components: path extraction, strip-level
//! auto-detection, path stripping, and hunk-header masking.

use diffsplit::paths::{extract_path, calculate_strip_value, resolve_strip_level, strip_path};
use diffsplit::mask::mask_hunk_line;

fn b(s: &str) -> Vec<u8> {
    s.as_bytes().to_vec()
}

fn s(v: &[u8]) -> String {
    String::from_utf8(v.to_vec()).unwrap()
}

#[test]
fn extract_path_plain() {
    let r = extract_path(&b("--- a/dir/x.txt\n"), &b("--- "));
    assert_eq!(s(&r), "a/dir/x.txt");
}

#[test]
fn extract_path_drops_tab_metadata() {
    let r = extract_path(&b("+++ b/x.txt\t2024-01-01 00:00:00\n"), &b("+++ "));
    assert_eq!(s(&r), "b/x.txt");
}

#[test]
fn extract_path_trims_whitespace() {
    let r = extract_path(&b("+++   b/x.txt  \n"), &b("+++ "));
    assert_eq!(s(&r), "b/x.txt");
}

#[test]
fn extract_path_empty() {
    let r = extract_path(&b("+++ \n"), &b("+++ "));
    assert_eq!(s(&r), "");
}

#[test]
fn strip_value_common_dir() {
    // identical apart from the a/ and b/ prefix: strip exactly that prefix
    let r = calculate_strip_value(&b("a/dir/x.txt"), &b("b/dir/x.txt"));
    assert_eq!(r, 1);
}

#[test]
fn strip_value_rename() {
    // only the filename survives the rename, so two components go
    let r = calculate_strip_value(&b("a/old/name.txt"), &b("b/new/name.txt"));
    assert_eq!(r, 2);
}

#[test]
fn strip_value_no_common_suffix() {
    let r = calculate_strip_value(&b("a/x.txt"), &b("b/y.txt"));
    assert_eq!(r, 2);
}

#[test]
fn strip_value_identical_paths() {
    let r = calculate_strip_value(&b("x.txt"), &b("x.txt"));
    assert_eq!(r, 0);
}

#[test]
fn resolve_explicit_wins() {
    let r = resolve_strip_level(Some(7), &b("a/dir/x.txt"), &b("b/dir/x.txt"));
    assert_eq!(r, 7);
    let r = resolve_strip_level(None, &b("a/dir/x.txt"), &b("b/dir/x.txt"));
    assert_eq!(r, 1);
}

#[test]
fn strip_path_zero_keeps_path() {
    let r = strip_path(&b("a/b/c.txt"), 0).unwrap();
    assert_eq!(s(&r), "a/b/c.txt");
}

#[test]
fn strip_path_drops_components() {
    let r = strip_path(&b("a/b/c.txt"), 1).unwrap();
    assert_eq!(s(&r), "b/c.txt");
    let r = strip_path(&b("a/b/c.txt"), 2).unwrap();
    assert_eq!(s(&r), "c.txt");
}

#[test]
fn strip_path_falls_back_to_basename() {
    let r = strip_path(&b("a/b/c.txt"), 3).unwrap();
    assert_eq!(s(&r), "c.txt");
    let r = strip_path(&b("a/b/c.txt"), 9).unwrap();
    assert_eq!(s(&r), "c.txt");
}

#[test]
fn strip_path_empty_result_is_none() {
    assert!(strip_path(&b("/"), 1).is_none());
    assert!(strip_path(&b(""), 0).is_none());
    assert!(strip_path(&b(""), 3).is_none());
}

#[test]
fn strip_path_collapses_repeated_separators() {
    let r = strip_path(&b("a//b///c.txt"), 1).unwrap();
    assert_eq!(s(&r), "b/c.txt");
}

#[test]
fn mask_two_file_header() {
    let r = mask_hunk_line(&b("@@ -10,5 +20,5 @@ fn foo() {\n"));
    assert_eq!(s(&r), "@@ -XX,5 +XX,5 @@ fn foo() {\n");
}

#[test]
fn mask_combined_header() {
    let r = mask_hunk_line(&b("@@@ -1,3 -1,3 +1,4 @@@\n"));
    assert_eq!(s(&r), "@@@ -X,3 -X,3 +X,4 @@@\n");
}

#[test]
fn mask_without_counts() {
    let r = mask_hunk_line(&b("@@ -7 +13 @@\n"));
    assert_eq!(s(&r), "@@ -X +XX @@\n");
}

#[test]
fn mask_preserves_tail_verbatim() {
    let r = mask_hunk_line(&b("@@ -1 +2 @@ tail with @@ inside\n"));
    assert_eq!(s(&r), "@@ -X +X @@ tail with @@ inside\n");
}

#[test]
fn mask_leaves_unmatched_line_alone() {
    let cases = [
        "@@ no numbers @@\n",
        "@@ -1x +2 @@\n",
        "@@ -1 +2\n",
        "@@ -12, +3 @@\n",
        "plain context line\n",
        "@@@ -1,3 +1,4 @@@\n",
    ];
    for c in cases {
        let r = mask_hunk_line(&b(c));
        assert_eq!(s(&r), c);
    }
}

#[test]
fn mask_keeps_count_digits() {
    let r = mask_hunk_line(&b("@@ -123,456 +789,12 @@\n"));
    assert_eq!(s(&r), "@@ -XXX,456 +XXX,12 @@\n");
}
