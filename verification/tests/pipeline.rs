//! End-to-end tests of `split_diff`: record segmentation, binary
//! diversion, format errors, header skipping and masking.

use diffsplit::output::split_diff;
use diffsplit::classify::FormatError;

fn l(s: &str) -> Vec<u8> {
    s.as_bytes().to_vec()
}

fn lines(ss: &[&str]) -> Vec<Vec<u8>> {
    ss.iter().map(|s| l(s)).collect()
}

fn s(v: &[u8]) -> String {
    String::from_utf8(v.to_vec()).unwrap()
}

#[test]
fn single_record_round_trip() {
    let input = lines(&[
        "diff --git a/dir/x.txt b/dir/x.txt\n",
        "index 123..456 100644\n",
        "--- a/dir/x.txt\n",
        "+++ b/dir/x.txt\n",
        "@@ -1,2 +1,2 @@\n",
        "-old\n",
        "+new\n",
    ]);
    let out = split_diff(&input, None, false, false);
    assert!(out.error.is_none());
    assert_eq!(out.files.len(), 1);
    assert_eq!(s(&out.files[0].path), "dir/x.txt");
    // masking and header-skipping disabled: the block comes back verbatim
    assert_eq!(out.files[0].lines, input);
    assert!(out.binary_lines.is_empty());
}

#[test]
fn two_records_split() {
    let input = lines(&[
        "garbage before the first diff is ignored\n",
        "diff --git a/one.txt b/one.txt\n",
        "--- a/one.txt\n",
        "+++ b/one.txt\n",
        "@@ -1 +1 @@\n",
        "-a\n",
        "+b\n",
        "diff --git a/two.txt b/two.txt\n",
        "index 0000000..1111111 100644\n",
        "--- a/two.txt\n",
        "+++ b/two.txt\n",
        "@@ -5 +5 @@\n",
        "-c\n",
        "+d\n",
    ]);
    let out = split_diff(&input, None, false, false);
    assert!(out.error.is_none());
    assert_eq!(out.files.len(), 2);
    assert_eq!(s(&out.files[0].path), "one.txt");
    assert_eq!(s(&out.files[1].path), "two.txt");
    assert_eq!(out.files[0].lines, input[1..7].to_vec());
    assert_eq!(out.files[1].lines, input[7..].to_vec());
}

#[test]
fn binary_record_diverted() {
    let input = lines(&[
        "diff --git a/img.png b/img.png\n",
        "index 123..456 100644\n",
        "--- a/img.png\n",
        "+++ b/img.png\n",
        "Binary files a/img.png and b/img.png differ\n",
        "diff --git a/one.txt b/one.txt\n",
        "--- a/one.txt\n",
        "+++ b/one.txt\n",
        "@@ -1 +1 @@\n",
        "-a\n",
        "+b\n",
    ]);
    let out = split_diff(&input, None, false, false);
    assert!(out.error.is_none());
    // the binary record produces no per-file artifact
    assert_eq!(out.files.len(), 1);
    assert_eq!(s(&out.files[0].path), "one.txt");
    // but contributes exactly one trimmed line to the aggregate
    assert_eq!(out.binary_lines.len(), 1);
    assert_eq!(
        s(&out.binary_lines[0]),
        "Binary files a/img.png and b/img.png differ"
    );
}

#[test]
fn binary_markers_keep_stream_order() {
    let input = lines(&[
        "diff --git a/b1.bin b/b1.bin\n",
        "--- a/b1.bin\n",
        "+++ b/b1.bin\n",
        "Binary files a/b1.bin and b/b1.bin differ\n",
        "diff --git a/b2.bin b/b2.bin\n",
        "--- a/b2.bin\n",
        "+++ b/b2.bin\n",
        "Binary files a/b2.bin and b/b2.bin differ\n",
    ]);
    let out = split_diff(&input, None, false, false);
    assert!(out.error.is_none());
    assert_eq!(out.files.len(), 0);
    assert_eq!(out.binary_lines.len(), 2);
    assert_eq!(s(&out.binary_lines[0]), "Binary files a/b1.bin and b/b1.bin differ");
    assert_eq!(s(&out.binary_lines[1]), "Binary files a/b2.bin and b/b2.bin differ");
}

#[test]
fn from_followed_by_diff_aborts() {
    let input = lines(&[
        "diff --git a/one.txt b/one.txt\n",
        "--- a/one.txt\n",
        "+++ b/one.txt\n",
        "@@ -1 +1 @@\n",
        "-a\n",
        "+b\n",
        "diff --git a/two.txt b/two.txt\n",
        "--- a/two.txt\n",
        "diff --git a/three.txt b/three.txt\n",
        "--- a/three.txt\n",
        "+++ b/three.txt\n",
        "+x\n",
    ]);
    let out = split_diff(&input, None, false, false);
    // the `+++ ` line is missing: fatal format error
    assert_eq!(out.error, Some(FormatError::ExpectedTo));
    // records emitted before the bad line stand; nothing after is emitted
    assert_eq!(out.files.len(), 1);
    assert_eq!(s(&out.files[0].path), "one.txt");
}

#[test]
fn missing_from_line_aborts() {
    let input = lines(&[
        "diff --git a/one.txt b/one.txt\n",
        "@@ -1 +1 @@\n",
    ]);
    let out = split_diff(&input, None, false, false);
    assert_eq!(out.error, Some(FormatError::ExpectedIndexOrFrom));
    assert_eq!(out.files.len(), 0);
}

#[test]
fn index_must_be_followed_by_from() {
    let input = lines(&[
        "diff --git a/one.txt b/one.txt\n",
        "index 123..456 100644\n",
        "+++ b/one.txt\n",
    ]);
    let out = split_diff(&input, None, false, false);
    assert_eq!(out.error, Some(FormatError::ExpectedFrom));
    assert_eq!(out.files.len(), 0);
}

#[test]
fn empty_stripped_path_skipped() {
    let input = lines(&[
        "diff --git a/ b/\n",
        "--- /\n",
        "+++ /\n",
        "@@ -1 +1 @@\n",
    ]);
    // an explicit strip level of 1 on a path with no components gives an
    // empty path: the record is skipped without error
    let out = split_diff(&input, Some(1), false, false);
    assert!(out.error.is_none());
    assert_eq!(out.files.len(), 0);
}

#[test]
fn explicit_strip_overrides_auto() {
    let input = lines(&[
        "diff --git a/d/e/x.txt b/d/e/x.txt\n",
        "--- a/d/e/x.txt\n",
        "+++ b/d/e/x.txt\n",
        "@@ -1 +1 @@\n",
    ]);
    let auto = split_diff(&input, None, false, false);
    assert_eq!(s(&auto.files[0].path), "d/e/x.txt");
    let two = split_diff(&input, Some(2), false, false);
    assert_eq!(s(&two.files[0].path), "e/x.txt");
    // more levels than components: fall back to the basename
    let many = split_diff(&input, Some(9), false, false);
    assert_eq!(s(&many.files[0].path), "x.txt");
    let zero = split_diff(&input, Some(0), false, false);
    assert_eq!(s(&zero.files[0].path), "b/d/e/x.txt");
}

#[test]
fn record_without_to_path_dropped() {
    let input = lines(&[
        "diff --git a/one.txt b/one.txt\n",
        "--- a/one.txt\n",
        "+++ \n",
        "@@ -1 +1 @@\n",
        "-a\n",
    ]);
    let out = split_diff(&input, None, false, false);
    assert!(out.error.is_none());
    assert_eq!(out.files.len(), 0);
}

#[test]
fn skip_header_omits_header_lines() {
    let input = lines(&[
        "diff --git a/one.txt b/one.txt\n",
        "index 123..456 100644\n",
        "--- a/one.txt\n",
        "+++ b/one.txt\n",
        "@@ -1 +1 @@\n",
        "-a\n",
        "+b\n",
    ]);
    let out = split_diff(&input, None, false, true);
    assert!(out.error.is_none());
    assert_eq!(out.files.len(), 1);
    assert_eq!(out.files[0].lines, input[4..].to_vec());
}

#[test]
fn masking_applies_to_body() {
    let input = lines(&[
        "diff --git a/one.txt b/one.txt\n",
        "--- a/one.txt\n",
        "+++ b/one.txt\n",
        "@@ -10,5 +20,5 @@ fn foo() {\n",
        " context\n",
        "@@@ -1,3 -1,3 +1,4 @@@\n",
    ]);
    let out = split_diff(&input, None, true, false);
    assert!(out.error.is_none());
    assert_eq!(out.files.len(), 1);
    assert_eq!(s(&out.files[0].lines[3]), "@@ -XX,5 +XX,5 @@ fn foo() {\n");
    assert_eq!(s(&out.files[0].lines[4]), " context\n");
    assert_eq!(s(&out.files[0].lines[5]), "@@@ -X,3 -X,3 +X,4 @@@\n");
}

#[test]
fn empty_input_gives_nothing() {
    let input: Vec<Vec<u8>> = Vec::new();
    let out = split_diff(&input, None, false, false);
    assert!(out.error.is_none());
    assert_eq!(out.files.len(), 0);
    assert_eq!(out.binary_lines.len(), 0);
}

#[test]
fn last_line_without_newline_round_trips() {
    let input = lines(&[
        "diff --git a/one.txt b/one.txt\n",
        "--- a/one.txt\n",
        "+++ b/one.txt\n",
        "@@ -1 +1 @@\n",
        "+no newline at end",
    ]);
    let out = split_diff(&input, None, false, false);
    assert!(out.error.is_none());
    assert_eq!(out.files[0].lines, input);
}
