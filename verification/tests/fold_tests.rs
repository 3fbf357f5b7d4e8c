use posix_tools::fold::{contains_jis_escape, fold_content, fold_line_bytes, fold_line_chars, get_char_width,
    is_wide_char, parse_args, Options};

fn args(v: &[&str]) -> Vec<String> {
    v.iter().map(|s| s.to_string()).collect()
}

fn opts(width: usize, bytes: bool, spaces: bool) -> Options {
    Options { width, bytes, spaces, show_help: false, show_version: false }
}

#[test]
fn command_line_forms() {
    let (o, files) = parse_args(&args(&["fold", "-sw", "72", "a.txt", "--", "-b"])).unwrap();
    assert_eq!(o, opts(72, false, true));
    assert_eq!(files, vec!["a.txt", "-b"]);
    let (n, _) = parse_args(&args(&["fold", "-60", "--bytes"])).unwrap();
    assert_eq!(n, opts(60, true, false));
    let (w, _) = parse_args(&args(&["fold", "--width=5", "-w3"])).unwrap();
    assert_eq!(w.width, 3);
    let (d, f) = parse_args(&args(&["fold", "-"])).unwrap();
    assert_eq!(d.width, 80);
    assert_eq!(f, vec!["-"]);
}

#[test]
fn command_line_errors() {
    assert_eq!(parse_args(&args(&["fold", "-w"])).unwrap_err(), "オプション '-w' には引数が必要です");
    assert_eq!(parse_args(&args(&["fold", "-w", "0"])).unwrap_err(), "幅は1以上である必要があります");
    assert_eq!(parse_args(&args(&["fold", "--width=x"])).unwrap_err(), "無効な幅: 'x'");
    assert_eq!(parse_args(&args(&["fold", "-q"])).unwrap_err(), "不正なオプション: '-q'");
    assert_eq!(parse_args(&args(&["fold", "--nope"])).unwrap_err(), "不明なオプション: '--nope'");
    assert_eq!(parse_args(&args(&["fold", "--width"])).unwrap_err(), "オプション '--width' には引数が必要です");
}

#[test]
fn character_widths() {
    assert_eq!(get_char_width('\t', 3), 5);
    assert_eq!(get_char_width('\u{7}', 0), 0);
    assert_eq!(get_char_width('あ', 0), 2);
    assert_eq!(get_char_width('ｱ', 0), 1);
    assert!(is_wide_char('漢'));
    assert!(!is_wide_char('a'));
}

#[test]
fn folding_by_columns() {
    assert_eq!(fold_line_chars("abcdefgh", 3, false), "abc\ndef\ngh");
    assert_eq!(fold_line_chars("ab cd ef", 5, true), "ab cd\nef");
    assert_eq!(fold_line_chars("あいう", 4, false), "あい\nう");
    assert_eq!(fold_line_chars("short", 80, false), "short");
}

#[test]
fn folding_by_bytes() {
    assert_eq!(fold_line_bytes("abcdef", 4, false), "abcd\nef");
    assert_eq!(fold_line_bytes("ab cd", 4, true), "ab \ncd");
    assert_eq!(fold_line_bytes("あい", 4, false), "あ\nい");
    assert_eq!(fold_line_bytes("abc", 3, false), "abc");
}

#[test]
fn folding_a_text_keeps_its_line_ending() {
    assert_eq!(fold_content("abcd\r\nef\r\n", &opts(2, false, false)), "ab\ncd\r\nef\r\n");
    assert_eq!(fold_content("abc\nd", &opts(2, false, false)), "ab\nc\nd");
    assert_eq!(fold_content("", &opts(2, false, false)), "");
    assert_eq!(fold_content("x\n\n", &opts(2, false, false)), "x\n\n");
}

#[test]
fn jis_escapes_are_found() {
    assert!(contains_jis_escape(b"a\x1b$Bxx"));
    assert!(!contains_jis_escape(b"\x1b$"));
    assert!(!contains_jis_escape(b"plain"));
}

#[test]
fn too_wide_characters_stand_alone() {
    assert_eq!(posix_tools::fold::fold_line_chars("あい", 1, false), "あ\nい");
    assert_eq!(posix_tools::fold::fold_line_chars("\tx", 4, false), "\t\nx");
    assert_eq!(posix_tools::fold::fold_line_chars("ab", 1, false), "a\nb");
}
