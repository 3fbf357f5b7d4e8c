use posix_tools::ls::options::{parse_args, Flag, LongFlag, OutputFormat, ShortFlag, ColorMode};
use posix_tools::ls::options::parse_block_size;
use posix_tools::ls::names::{colorize_name, escape_name, format_permissions, is_executable_file, replace_non_printable, shown_name, size_in_blocks};
use posix_tools::ls::{get_file_attributes, has_glob_magic};

#[test]
fn detects_glob_character_classes() {
    assert!(has_glob_magic("*.rs"));
    assert!(has_glob_magic("file?.txt"));
    assert!(has_glob_magic("src/[ab].rs"));
    assert!(!has_glob_magic("plain.txt"));
}

#[test]
fn dotfile_is_treated_as_hidden() {
    let (is_hidden, _, _) = get_file_attributes(".env");
    assert!(is_hidden);
}

#[test]
fn bracket_at_the_end_is_no_glob() {
    assert!(!has_glob_magic("name["));
    assert!(has_glob_magic("name[x"));
}

#[test]
fn plain_and_parent_names_are_not_hidden() {
    assert_eq!(get_file_attributes("dir/file.txt"), (false, false, false));
    assert_eq!(get_file_attributes("dir/.."), (false, false, false));
    assert_eq!(get_file_attributes("a/.hidden"), (true, false, false));
}

#[test]
fn ls_flags_and_operands() {
    let a: Vec<String> = ["ls", "-la", "--color=never", "--block-size=2K", "x", "--", "-y"].iter().map(|s| s.to_string()).collect();
    let (flags, paths) = parse_args(&a).unwrap().unwrap();
    assert_eq!(flags, vec![
        Flag::Short(ShortFlag::Format(OutputFormat::Long)),
        Flag::Short(ShortFlag::All),
        Flag::Long(LongFlag::Color(ColorMode::Never)),
        Flag::Long(LongFlag::BlockSize(2048)),
    ]);
    assert_eq!(paths, vec!["x".to_string(), "-y".to_string()]);
    let bad: Vec<String> = ["ls", "-lz"].iter().map(|s| s.to_string()).collect();
    assert_eq!(parse_args(&bad).unwrap().unwrap_err(), "不正なオプション: '-z'");
    let bad: Vec<String> = ["ls", "--color=sometimes"].iter().map(|s| s.to_string()).collect();
    assert_eq!(parse_args(&bad).unwrap().unwrap_err(), "'--color' の引数が不正です: 'sometimes'");
}

#[test]
fn block_sizes() {
    assert_eq!(parse_block_size(" 4kb "), Some(Ok(4000)));
    assert_eq!(parse_block_size("M"), Some(Ok(1048576)));
    assert_eq!(parse_block_size("512"), Some(Ok(512)));
    assert_eq!(parse_block_size("xK"), Some(Err("不正なブロックサイズ: 'xK'".to_string())));
    assert_eq!(parse_block_size("18446744073709551615G"), None);
}

#[test]
fn names_as_shown() {
    assert_eq!(escape_name("a\tb\"\u{1}"), "a\\tb\\\"\\001");
    assert_eq!(replace_non_printable("a\nb"), "a?b");
    assert!(is_executable_file("run.EXE"));
    assert!(is_executable_file("exe"));
    assert_eq!(format_permissions(true, false, "x.bat"), "r-xr-xr-x");
    assert_eq!(format_permissions(false, false, "x.txt"), "rw-r--r--");
    assert_eq!(shown_name("d", false, false, true, true, true, false), "\"d\"/");
    assert_eq!(colorize_name("d/", "d", true, false, false, false), "\x1b[34md/\x1b[0m");
    assert_eq!(size_in_blocks(1025, 1024), 2);
}
