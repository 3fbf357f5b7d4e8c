use posix_tools::patch::apply::{apply_at, apply_hunk, apply_hunks, detect_patch_format, matches_at, target_file,
    PatchFormat};
use posix_tools::patch::context::parse_context_patch;
use posix_tools::patch::normal::parse_normal_patch;
use posix_tools::patch::unified::parse_unified_patch;
use posix_tools::patch::{content_lines, parse_pair, strip_path, Hunk, HunkLine, PatchFile};

fn lines(v: &[&str]) -> Vec<String> {
    v.iter().map(|s| s.to_string()).collect()
}

fn texts(h: &Hunk) -> Vec<String> {
    h.lines
        .iter()
        .map(|l| match l {
            HunkLine::Context(s) => format!(" {}", s),
            HunkLine::Add(s) => format!("+{}", s),
            HunkLine::Remove(s) => format!("-{}", s),
        })
        .collect()
}

const UNIFIED: &str = "--- a/src/old.txt\t2024-01-01\n+++ b/src/new.txt\n@@ -1,3 +1,3 @@\n one\n-two\n+TWO\n three\n\\ No newline at end of file\n";

#[test]
fn lines_follow_str_lines() {
    assert_eq!(content_lines("a\r\nb\n\nc"), vec!["a", "b", "", "c"]);
    assert_eq!(content_lines("x\n"), vec!["x"]);
    assert!(content_lines("").is_empty());
    assert_eq!(content_lines("end\r"), vec!["end\r"]);
}

#[test]
fn strip_path_drops_leading_components() {
    assert_eq!(strip_path("a/b/c.txt", 0), "a/b/c.txt");
    assert_eq!(strip_path("a/b/c.txt", 1), "b/c.txt");
    assert_eq!(strip_path("a\\b\\c.txt", 2), "c.txt");
    assert_eq!(strip_path("a/b", 5), "b");
}

#[test]
fn ranges() {
    assert_eq!(parse_pair("3,4", false), Ok((3, 4)));
    assert_eq!(parse_pair("7", false), Ok((7, 1)));
    assert_eq!(parse_pair("7", true), Ok((7, 7)));
    assert_eq!(parse_pair("x,1", true), Err("無効な範囲: x,1".to_string()));
}

#[test]
fn unified_patch_is_read() {
    let p = parse_unified_patch(UNIFIED, 1).expect("valid patch");
    assert_eq!(p.len(), 1);
    assert_eq!(p[0].old_file, "src/old.txt");
    assert_eq!(p[0].new_file, "src/new.txt");
    let h = &p[0].hunks[0];
    assert_eq!((h.old_start, h.old_count, h.new_start, h.new_count), (1, 3, 1, 3));
    assert_eq!(texts(h), vec![" one", "-two", "+TWO", " three"]);
}

#[test]
fn unified_patch_errors() {
    assert_eq!(parse_unified_patch("--- a\nxx\n", 0).unwrap_err(), "無効なパッチ形式: +++ 行がありません");
    assert_eq!(parse_unified_patch("--- a\n+++ b\n@@ -1\n", 0).unwrap_err(), "無効なハンクヘッダー: @@ -1");
    assert_eq!(parse_unified_patch("--- a\n+++ b\n@@ -x +1 @@\n", 0).unwrap_err(), "無効な範囲: x");
    let dev_null = parse_unified_patch("--- /dev/null\n+++ b/new\n@@ -0,0 +1 @@\n+hi\n", 1).unwrap();
    assert_eq!(dev_null[0].old_file, "");
    assert_eq!(dev_null[0].hunks[0].new_count, 1);
}

#[test]
fn context_patch_is_read() {
    let text = "*** a/f.txt\n--- b/f.txt\n***************\n*** 1,3 ****\n  one\n! two\n  three\n--- 1,3 ----\n  one\n! TWO\n  three\n";
    let p = parse_context_patch(text, 1).expect("valid context patch");
    assert_eq!(p.len(), 1);
    assert_eq!(p[0].new_file, "f.txt");
    let h = &p[0].hunks[0];
    assert_eq!((h.old_start, h.old_count, h.new_start, h.new_count), (1, 3, 1, 3));
    assert_eq!(texts(h), vec![" one", "-two", "+TWO", " three"]);
}

#[test]
fn normal_patch_is_read() {
    let p = parse_normal_patch("2c2\n< two\n---\n> TWO\n4a5\n> five\n", 0).expect("valid normal patch");
    assert_eq!(p.len(), 1);
    assert_eq!(p[0].hunks.len(), 2);
    assert_eq!(texts(&p[0].hunks[0]), vec!["-two", "+TWO"]);
    assert_eq!((p[0].hunks[1].old_start, p[0].hunks[1].new_start), (4, 5));
    assert!(parse_normal_patch("hello\n", 0).unwrap().is_empty());
    assert_eq!(parse_normal_patch("no commands here\n", 0).unwrap_err(), "無効な範囲: no ");
    assert_eq!(parse_normal_patch("xc1\n", 0).unwrap_err(), "無効な範囲: x");
}

#[test]
fn formats_are_detected() {
    assert_eq!(detect_patch_format(UNIFIED), PatchFormat::Unified);
    assert_eq!(detect_patch_format("*** a\n--- b\n"), PatchFormat::Context);
    assert_eq!(detect_patch_format("1c1\n< a\n"), PatchFormat::Normal);
    assert_eq!(detect_patch_format("hello\n"), PatchFormat::Unified);
}

#[test]
fn hunk_applies_and_reverts() {
    let p = parse_unified_patch(UNIFIED, 0).unwrap();
    let h = &p[0].hunks[0];
    let mut file = lines(&["one", "two", "three", "four"]);
    assert_eq!(apply_hunk(&mut file, h, false, 2), Ok(true));
    assert_eq!(file, lines(&["one", "TWO", "three", "four"]));
    assert_eq!(apply_hunk(&mut file, h, true, 2), Ok(true));
    assert_eq!(file, lines(&["one", "two", "three", "four"]));
}

#[test]
fn hunk_is_found_with_an_offset() {
    let p = parse_unified_patch(UNIFIED, 0).unwrap();
    let mut file = lines(&["zero", "one", "two", "three"]);
    assert_eq!(apply_hunk(&mut file, &p[0].hunks[0], false, 2), Ok(true));
    assert_eq!(file, lines(&["zero", "one", "TWO", "three"]));
    let mut other = lines(&["x", "y"]);
    assert_eq!(apply_hunk(&mut other, &p[0].hunks[0], false, 2), Ok(false));
    assert_eq!(other, lines(&["x", "y"]));
}

#[test]
fn hunks_apply_in_turn() {
    let p = parse_normal_patch("1c1\n< a\n---\n> A\n3d2\n< c\n", 0).unwrap();
    let mut file = lines(&["a", "b", "c"]);
    let ok = apply_hunks(&mut file, &p[0].hunks, false, 2);
    assert_eq!(ok, vec![true, true]);
    assert_eq!(file, lines(&["A", "b"]));
}

#[test]
fn matching_ignores_trailing_white_space() {
    let file = lines(&["a  ", "b"]);
    assert!(matches_at(&file, 0, &lines(&["a", "b\t"])));
    assert!(!matches_at(&file, 1, &lines(&["b", "c"])));
    assert!(matches_at(&file, 2, &lines(&[])));
}

#[test]
fn apply_at_replaces_the_expected_lines() {
    let h = Hunk {
        old_start: 2,
        old_count: 1,
        new_start: 2,
        new_count: 2,
        lines: vec![HunkLine::Remove("b".to_string()), HunkLine::Add("B1".to_string()), HunkLine::Add("B2".to_string())],
    };
    let mut file = lines(&["a", "b", "c"]);
    apply_at(&mut file, 1, &h, false);
    assert_eq!(file, lines(&["a", "B1", "B2", "c"]));
}

#[test]
fn target_file_prefers_the_command_line() {
    let p = PatchFile { old_file: "old".to_string(), new_file: "new".to_string(), hunks: Vec::new() };
    assert_eq!(target_file(&p, &None), Some("new".to_string()));
    assert_eq!(target_file(&p, &Some("given".to_string())), Some("given".to_string()));
    let bare = PatchFile { old_file: String::new(), new_file: String::new(), hunks: Vec::new() };
    assert_eq!(target_file(&bare, &None), None);
}
