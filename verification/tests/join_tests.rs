use posix_tools::join::args::parse_args_from;
use posix_tools::join::{format_output, format_unpaired, get_join_key, join_lines, parse_output_format, split_fields,
    Config, OutputSpec};

fn args(v: &[&str]) -> Vec<String> {
    v.iter().map(|s| s.to_string()).collect()
}

fn lines(v: &[&str]) -> Vec<String> {
    v.iter().map(|s| s.to_string()).collect()
}

fn config(a: &[&str]) -> Config {
    let mut all: Vec<&str> = a.to_vec();
    all.push("left.txt");
    all.push("right.txt");
    parse_args_from(&args(&all)).expect("arguments should parse")
}

#[test]
fn parse_args_accepts_two_plain_files() {
    let config = parse_args_from(&args(&["left.txt", "right.txt"])).expect("plain args should parse");

    assert_eq!(config.file1, "left.txt");
    assert_eq!(config.file2, "right.txt");
}

#[test]
fn parse_args_rejects_more_than_two_positionals() {
    let err = parse_args_from(&args(&["a", "b", "c"])).expect_err("extra operands should fail");

    assert!(err.contains("引数が多すぎます"));
}

#[test]
fn parse_args_reads_options_in_both_forms() {
    let c = config(&["-1", "2", "-23", "-t", ",", "-e", "NA", "-a", "1", "-a1", "-v2", "-i", "--header"]);
    assert_eq!(c.field1, 2);
    assert_eq!(c.field2, 3);
    assert_eq!(c.input_separator, Some(','));
    assert_eq!(c.output_separator, ",");
    assert_eq!(c.empty_replacement, "NA");
    assert_eq!(c.print_unpaired, vec![1]);
    assert_eq!(c.only_unpaired, vec![2]);
    assert!(c.ignore_case && c.header);
    let j = config(&["-j", "4", "-o", "1.2,0,2.1"]);
    assert_eq!((j.field1, j.field2), (4, 4));
    assert_eq!(
        j.output_format,
        Some(vec![OutputSpec { file: 1, field: 2 }, OutputSpec { file: 0, field: 0 }, OutputSpec { file: 2, field: 1 }])
    );
    assert_eq!(config(&["-o", "auto"]).output_format, None);
}

#[test]
fn parse_args_errors() {
    assert_eq!(parse_args_from(&args(&["-1"])).unwrap_err(), "-1 にはフィールド番号が必要です");
    assert_eq!(parse_args_from(&args(&["-1x", "a", "b"])).unwrap_err(), "無効なフィールド番号: 'x'");
    assert_eq!(parse_args_from(&args(&["-a", "3", "a", "b"])).unwrap_err(), "-a のファイル番号は1または2");
    assert_eq!(parse_args_from(&args(&["-v", "z"])).unwrap_err(), "無効なファイル番号: 'z'");
    assert_eq!(parse_args_from(&args(&["-t", "", "a", "b"])).unwrap_err(), "セパレータは空にできません");
    assert_eq!(parse_args_from(&args(&["-j3", "a", "b"])).unwrap_err(), "不明なオプション: -j3");
    assert_eq!(parse_args_from(&args(&["-o", "1.x", "a", "b"])).unwrap_err(), "無効なフィールド番号: 'x'");
    assert_eq!(parse_args_from(&args(&["a"])).unwrap_err(), "結合する2つのファイルを指定してください");
}

#[test]
fn parse_args_double_dash_and_help() {
    let c = parse_args_from(&args(&["--", "-a", "-b"])).expect("operands after --");
    assert_eq!((c.file1.as_str(), c.file2.as_str()), ("-a", "-b"));
    assert!(parse_args_from(&args(&["--help", "-x"])).unwrap().show_help);
    assert!(parse_args_from(&args(&["--version"])).unwrap().show_version);
    let stdin = parse_args_from(&args(&["-", "b"])).unwrap();
    assert_eq!(stdin.file1, "-");
}

#[test]
fn output_format_errors() {
    assert_eq!(parse_output_format("3.1").unwrap_err(), "ファイル番号は1または2: '3'");
    assert_eq!(parse_output_format("1.2.3").unwrap_err(), "無効な出力フォーマット: '1.2.3'");
    assert_eq!(parse_output_format(" 0 , 2.1 ").unwrap(), vec![OutputSpec { file: 0, field: 0 }, OutputSpec { file: 2, field: 1 }]);
    assert_eq!(parse_output_format("x").unwrap_err(), "無効な出力フォーマット: 'x'");
}

#[test]
fn split_fields_by_blanks_or_separator() {
    assert_eq!(split_fields("  a \t b  \n", None), vec!["a", "b"]);
    assert_eq!(split_fields("a,,b\r\n", Some(',')), vec!["a", "", "b"]);
    assert_eq!(split_fields("", Some(',')), vec![""]);
    assert!(split_fields("   ", None).is_empty());
}

#[test]
fn join_key_counts_from_one() {
    let f = vec!["Key".to_string(), "v".to_string()];
    assert_eq!(get_join_key(&f, 1, false), "Key");
    assert_eq!(get_join_key(&f, 1, true), "key");
    assert_eq!(get_join_key(&f, 3, false), "");
    assert_eq!(get_join_key(&f, 0, false), "");
}

#[test]
fn pairs_print_join_field_then_the_rest() {
    let c = config(&[]);
    let f1 = vec!["k".to_string(), "a".to_string()];
    let f2 = vec!["k".to_string(), "x".to_string(), "y".to_string()];
    assert_eq!(format_output(&f1, &f2, &c), "k a x y");
    assert_eq!(format_unpaired(&f2, 2, &c), "k x y");
    let o = config(&["-o", "2.3,1.5,0", "-e", "-"]);
    assert_eq!(format_output(&f1, &f2, &o), "y - k");
    assert_eq!(format_unpaired(&f1, 1, &o), "- - k");
}

#[test]
fn join_pairs_matching_lines() {
    let c = config(&[]);
    let (out, warns) = join_lines(&lines(&["1 a\n", "2 b\n", "3 c\n"]), &lines(&["1 x\n", "3 z\n", "4 w\n"]), &c);
    assert_eq!(out, vec!["1 a x", "3 c z"]);
    assert!(warns.is_empty());
}

#[test]
fn join_prints_unpaired_lines_on_request() {
    let l1 = lines(&["1 a", "2 b", "3 c"]);
    let l2 = lines(&["1 x", "3 z", "4 w"]);
    let (out, _) = join_lines(&l1, &l2, &config(&["-a", "1", "-a", "2"]));
    assert_eq!(out, vec!["1 a x", "2 b", "3 c z", "4 w"]);
    let (only, _) = join_lines(&l1, &l2, &config(&["-v", "2"]));
    assert_eq!(only, vec!["4 w"]);
}

#[test]
fn join_pairs_every_line_of_a_group_in_file_two() {
    let (out, _) = join_lines(&lines(&["k 1"]), &lines(&["k a", "k b", "m c"]), &config(&[]));
    assert_eq!(out, vec!["k 1 a", "k 1 b"]);
}

#[test]
fn join_header_and_separator() {
    let c = config(&["--header", "-t", ","]);
    let (out, _) = join_lines(&lines(&["id,name", "1,ann"]), &lines(&["id,age", "1,30"]), &c);
    assert_eq!(out, vec!["id,name,age", "1,ann,30"]);
}

#[test]
fn join_warns_on_unsorted_input() {
    let c = config(&["--check-order"]);
    let (_, warns) = join_lines(&lines(&["2 a", "1 b"]), &lines(&[]), &c);
    assert_eq!(warns, vec!["join: ファイル1がソートされていません: 1 b"]);
    let quiet = config(&["--check-order", "--nocheck-order"]);
    let (_, none) = join_lines(&lines(&["2 a", "1 b"]), &lines(&[]), &quiet);
    assert!(none.is_empty());
}

#[test]
fn join_ignores_case_of_keys() {
    let (out, _) = join_lines(&lines(&["A 1"]), &lines(&["a 2"]), &config(&["-i"]));
    assert_eq!(out, vec!["A 1 2"]);
}
