use posix_tools::head::{output_bytes, output_lines, parse_args, parse_number, parse_size, show_header, Options};

fn args(v: &[&str]) -> Vec<String> {
    v.iter().map(|s| s.to_string()).collect()
}

#[test]
fn counts_and_sizes() {
    assert_eq!(parse_number("-5"), Ok(-5));
    assert_eq!(parse_number("x"), Err("不正な行数: 'x'".to_string()));
    assert_eq!(parse_size("1K"), Some(Ok(1024)));
    assert_eq!(parse_size("2kb"), Some(Ok(2000)));
    assert_eq!(parse_size("-3M"), Some(Ok(-3 * 1024 * 1024)));
    assert_eq!(parse_size("7b"), Some(Ok(3584)));
    assert_eq!(parse_size("2b"), Some(Ok(1024)));
    assert_eq!(parse_size("1kB"), Some(Ok(1000)));
    assert_eq!(parse_size("1MB"), Some(Ok(1000000)));
    assert_eq!(parse_size("10"), Some(Ok(10)));
    assert_eq!(parse_size("1x"), Some(Err("不正なバイト数: '1x'".to_string())));
    assert_eq!(parse_size("9223372036854775807G"), None);
}

#[test]
fn command_line() {
    let (o, files) = parse_args(&args(&["head", "-n", "3", "-qv", "a", "--", "-b"])).unwrap().unwrap();
    assert_eq!(o.lines, Some(3));
    assert!(o.quiet && o.verbose);
    assert_eq!(files, vec!["a", "-b"]);
    let (old, _) = parse_args(&args(&["head", "-20"])).unwrap().unwrap();
    assert_eq!(old.lines, Some(20));
    let (c, _) = parse_args(&args(&["head", "--bytes=1K", "--zero-terminated"])).unwrap().unwrap();
    assert_eq!(c.bytes, Some(1024));
    assert!(c.zero_terminated);
    let (n, _) = parse_args(&args(&["head", "-c5"])).unwrap().unwrap();
    assert_eq!(n.bytes, Some(5));
    assert_eq!(parse_args(&args(&["head", "-n"])).unwrap().unwrap_err(), "オプション '-n' には引数が必要です");
    assert_eq!(parse_args(&args(&["head", "--lines"])).unwrap().unwrap_err(), "オプション '--lines' には引数が必要です");
    assert_eq!(parse_args(&args(&["head", "--what"])).unwrap().unwrap_err(), "不明なオプション: '--what'");
    assert_eq!(parse_args(&args(&["head", "-x"])).unwrap().unwrap_err(), "不正なオプション: '-x'");
}

#[test]
fn headers() {
    let mut o = Options { lines: None, bytes: None, quiet: false, verbose: false, zero_terminated: false, show_help: false, show_version: false };
    assert!(!show_header(&o, 1));
    assert!(show_header(&o, 2));
    o.quiet = true;
    assert!(!show_header(&o, 2));
    o.verbose = true;
    assert!(show_header(&o, 1));
}

#[test]
fn selected_bytes() {
    assert_eq!(output_bytes(b"abcdef", 2), b"ab".to_vec());
    assert_eq!(output_bytes(b"abcdef", -2), b"abcd".to_vec());
    assert_eq!(output_bytes(b"ab", -5), Vec::<u8>::new());
    assert_eq!(output_bytes(b"ab", 10), b"ab".to_vec());
}

#[test]
fn selected_lines() {
    assert_eq!(output_lines("a\nb\nc\n", 2, false), "a\nb\n");
    assert_eq!(output_lines("a\nb\nc", 10, false), "a\nb\nc");
    assert_eq!(output_lines("a\nb\nc\n", -1, false), "a\nb\n");
    assert_eq!(output_lines("x\0y\0", 1, true), "x\0");
    assert_eq!(output_lines("", 3, false), "");
}
