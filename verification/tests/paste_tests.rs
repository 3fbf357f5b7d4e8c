use posix_tools::paste::{parse_args, parse_delimiters, paste_parallel, paste_serial, Config, Input};

fn args(v: &[&str]) -> Vec<String> {
    v.iter().map(|s| s.to_string()).collect()
}

fn lines(v: &[&str]) -> Input {
    Input::Lines(v.iter().map(|s| s.to_string()).collect())
}

fn config(delims: &str, zero: bool) -> Config {
    Config {
        files: Vec::new(),
        delimiters: parse_delimiters(delims),
        serial: false,
        zero_terminated: zero,
        show_help: false,
        show_version: false,
    }
}

#[test]
fn delimiter_escapes() {
    assert_eq!(parse_delimiters("\\t\\n\\\\\\0x"), vec!['\t', '\n', '\\', '\0', 'x']);
    assert_eq!(parse_delimiters(""), vec!['\t']);
    assert_eq!(parse_delimiters("a\\"), vec!['a', '\\']);
    assert_eq!(parse_delimiters("\\q"), vec!['q']);
}

#[test]
fn defaults_read_stdin_with_tab() {
    let c = parse_args(&args(&[])).unwrap();
    assert_eq!(c.files, vec!["-".to_string()]);
    assert_eq!(c.delimiters, vec!['\t']);
    assert!(!c.serial && !c.zero_terminated);
}

#[test]
fn option_forms() {
    let c = parse_args(&args(&["-sz", "-d,:", "a", "--", "-b"])).unwrap();
    assert!(c.serial && c.zero_terminated);
    assert_eq!(c.delimiters, vec![',', ':']);
    assert_eq!(c.files, args(&["a", "-b"]));
    let c = parse_args(&args(&["--delimiters=;", "x"])).unwrap();
    assert_eq!(c.delimiters, vec![';']);
    let c = parse_args(&args(&["-sd", "|", "x"])).unwrap();
    assert_eq!(c.delimiters, vec!['|']);
    assert!(c.serial);
    let c = parse_args(&args(&["--help", "-q"])).unwrap();
    assert!(c.show_help);
}

#[test]
fn paste_option_errors() {
    assert_eq!(parse_args(&args(&["-d"])).unwrap_err(), "-d にはデリミタが必要です");
    assert_eq!(parse_args(&args(&["-sd"])).unwrap_err(), "-d にはデリミタが必要です");
    assert_eq!(parse_args(&args(&["-q"])).unwrap_err(), "不明なオプション: -q");
}

#[test]
fn parallel_merges_rows_until_all_exhausted() {
    let c = config(",", false);
    let ins = vec![lines(&["a\n", "b\n", "c\n"]), lines(&["1\n"])];
    assert_eq!(paste_parallel(&c, &ins, &Vec::new()), "a,1\nb,\nc,\n");
}

#[test]
fn parallel_cycles_delimiters_and_skips_unreadable() {
    let c = config("\\0-", false);
    let ins = vec![lines(&["a"]), Input::Unreadable, lines(&["b\r\n"]), lines(&["c"])];
    assert_eq!(paste_parallel(&c, &ins, &Vec::new()), "a-bc\n");
}

#[test]
fn stdin_operands_take_lines_in_turn() {
    let c = config("\t", false);
    let stdin: Vec<String> = args(&["1\n", "2\n", "3\n"]);
    let ins = vec![Input::Stdin, Input::Stdin];
    assert_eq!(paste_parallel(&c, &ins, &stdin), "1\t2\n3\t\n");
}

#[test]
fn zero_terminated_rows() {
    let c = config("\t", true);
    let ins = vec![lines(&["x", ""]), lines(&["y"])];
    assert_eq!(paste_parallel(&c, &ins, &Vec::new()), "x\ty\0\t\0");
}

#[test]
fn serial_joins_each_input() {
    let c = config(",;", false);
    let ins = vec![lines(&["a\n", "b\n", "c\n"]), lines(&[]), Input::Stdin, Input::Stdin];
    let stdin = args(&["s\n", "t\n"]);
    assert_eq!(paste_serial(&c, &ins, &stdin), "a,b;c\ns,t\n");
}

#[test]
fn nothing_in_nothing_out() {
    let c = config("\t", false);
    assert_eq!(paste_parallel(&c, &vec![lines(&[])], &Vec::new()), "");
    assert_eq!(paste_serial(&c, &vec![Input::Unreadable], &Vec::new()), "");
}
