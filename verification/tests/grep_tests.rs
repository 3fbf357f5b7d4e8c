use posix_tools::grep::lines::split_lines;
use posix_tools::grep::options::{parse_args, DirAction};
use posix_tools::grep::patterns::{
    convert_bre_to_ere, glob_match, glob_match_path, is_glob_pattern, normalize_path_for_glob,
};

fn args_of(v: &[&str]) -> Vec<String> {
    v.iter().map(|s| s.to_string()).collect()
}

#[test]
fn test_is_glob_pattern() {
    assert!(is_glob_pattern("*.txt"));
    assert!(is_glob_pattern("file?.log"));
    assert!(is_glob_pattern("[abc].txt"));
    assert!(!is_glob_pattern("README.md"));
}

#[test]
fn test_glob_match() {
    assert!(!glob_match("*.TXT", "foo.txt"));
    assert!(glob_match("f*o.txt", "foo.txt"));
    assert!(glob_match("?.txt", "a.txt"));
}

#[test]
fn test_glob_match_path_supports_path_patterns() {
    let normalized_path = normalize_path_for_glob("./src/main.rs");

    assert!(glob_match_path("src/*.rs", "main.rs", &normalized_path));
    assert!(!glob_match_path("src/*.txt", "main.rs", &normalized_path));
}

#[test]
fn test_convert_bre_escaped_backslash() {
    assert_eq!(convert_bre_to_ere(r"a\\(b"), r"a\\\(b");
}

#[test]
fn test_split_lines_strips_crlf_and_tracks_offsets() {
    let content = "abc\r\ndef\nghi";
    let (lines, offsets) = split_lines(content, false);
    assert_eq!(lines, vec!["abc", "def", "ghi"]);
    assert_eq!(offsets, vec![0, 5, 9]);
}

#[test]
fn test_split_lines_null_data() {
    let content = "abc\0def\0";
    let (lines, offsets) = split_lines(content, true);
    assert_eq!(lines, vec!["abc", "def"]);
    assert_eq!(offsets, vec![0, 4]);
}

#[test]
fn test_parse_args_s_is_not_quiet() {
    let args = args_of(&["grep", "-s", "pat"]);
    let opts = parse_args(&args).unwrap();
    assert!(opts.naming.no_messages);
    assert!(!opts.naming.quiet);
}

#[test]
fn test_parse_args_directories_skip() {
    let args = args_of(&["grep", "-d", "skip", "pat"]);
    let opts = parse_args(&args).unwrap();
    assert_eq!(opts.limits.directories, DirAction::Skip);

    let args = args_of(&["grep", "--directories=recurse", "pat"]);
    let opts = parse_args(&args).unwrap();
    assert!(opts.files.recursive);
}

#[test]
fn bre_swaps_literal_and_special_characters() {
    assert_eq!(convert_bre_to_ere(r"a\(b\)c+"), r"a(b)c\+");
    assert_eq!(convert_bre_to_ere(r"\<word\>"), r"\bword\b");
    assert_eq!(convert_bre_to_ere(r"x\."), r"x\.");
    assert_eq!(convert_bre_to_ere("tail\\"), "tail\\");
}

#[test]
fn split_lines_counts_utf8_bytes() {
    let (lines, offsets) = split_lines("é\nü\n", false);
    assert_eq!(lines, vec!["é", "ü"]);
    assert_eq!(offsets, vec![0, 3]);
    let (lines, offsets) = split_lines("", false);
    assert!(lines.is_empty());
    assert!(offsets.is_empty());
}

#[test]
fn normalize_path_turns_backslashes_and_drops_dot_slash() {
    assert_eq!(normalize_path_for_glob(r".\a\b.txt"), "a/b.txt");
    assert_eq!(normalize_path_for_glob("x/./y"), "x/./y");
}

#[test]
fn parse_args_takes_first_operand_as_pattern_and_marks_files() {
    let args = args_of(&["grep", "-in", "foo", "a.txt", "b.txt"]);
    let opts = parse_args(&args).unwrap();
    assert!(opts.matching.ignore_case);
    assert!(opts.report.line_number);
    assert_eq!(opts.texts.patterns, vec!["foo", "\0FILE:a.txt", "\0FILE:b.txt"]);
    assert_eq!(opts.texts.group_separator.as_deref(), Some("--"));
}

#[test]
fn parse_args_reads_values_and_context_digits() {
    let args = args_of(&["grep", "-e", "x", "-A", "2", "--max-count=5", "-3", "--", "-f"]);
    let opts = parse_args(&args).unwrap();
    assert_eq!(opts.limits.after_context, 2);
    assert_eq!(opts.limits.max_count, Some(5));
    assert_eq!(opts.limits.context, 3);
    assert_eq!(opts.texts.patterns, vec!["x", "\0FILE:-f"]);
}

#[test]
fn parse_args_reports_errors() {
    let err = parse_args(&args_of(&["grep", "--bogus"])).unwrap_err();
    assert_eq!(err, "不明なオプション: '--bogus'");
    let err = parse_args(&args_of(&["grep", "-k"])).unwrap_err();
    assert_eq!(err, "不正なオプション: '-k'");
    let err = parse_args(&args_of(&["grep", "-m"])).unwrap_err();
    assert_eq!(err, "option requires an argument -- 'm'");
    let err = parse_args(&args_of(&["grep", "--context=x"])).unwrap_err();
    assert_eq!(err, "不正な数値: 'x'");
    let err = parse_args(&args_of(&["grep", "--color=maybe"])).unwrap_err();
    assert_eq!(err, "'--color' の値が不正です: 'maybe'");
    let err = parse_args(&args_of(&["grep", "-d", "up"])).unwrap_err();
    assert_eq!(err, "'--directories' の値が不正です: 'up'");
    let err = parse_args(&args_of(&["grep", "--label"])).unwrap_err();
    assert_eq!(err, "option '--label' requires an argument");
}
