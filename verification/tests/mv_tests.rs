use posix_tools::mv::{backup_arg, default_backup_mode, is_numbered_backup_of, is_within, names_differ_only_in_case,
    numbered_backup, parse_args, simple_backup, strip_slashes, BackupMode, MvFlag};

fn args(v: &[&str]) -> Vec<String> {
    v.iter().map(|s| s.to_string()).collect()
}

#[test]
fn mv_option_forms() {
    let (f, t) = parse_args(&args(&["mv", "-fv", "-S.bak", "--backup=numbered", "a", "b"])).unwrap();
    assert_eq!(f, vec![MvFlag::Force, MvFlag::Verbose, MvFlag::Suffix(".bak".to_string()), MvFlag::Backup(BackupMode::Numbered)]);
    assert_eq!(t, args(&["a", "b"]));
    let (f, t) = parse_args(&args(&["mv", "-t", "dir", "--", "-x"])).unwrap();
    assert_eq!(f, vec![MvFlag::TargetDir("dir".to_string())]);
    assert_eq!(t, args(&["-x"]));
    let (f, _) = parse_args(&args(&["mv", "--target-directory", "d", "-b", "--backup"])).unwrap();
    assert_eq!(f, vec![MvFlag::TargetDir("d".to_string()), MvFlag::BackupIfOff, MvFlag::BackupDefault]);
}

#[test]
fn mv_option_errors() {
    assert_eq!(parse_args(&args(&["mv", "-q"])).unwrap_err(), "不正なオプション: '-q'");
    assert_eq!(parse_args(&args(&["mv", "-t"])).unwrap_err(), "'-t' には引数が必要です");
    assert_eq!(parse_args(&args(&["mv", "--suffix"])).unwrap_err(), "'--suffix' には引数が必要です");
    assert_eq!(parse_args(&args(&["mv", "--backup=x"])).unwrap_err(), "'--backup' の引数が不正です: 'x'");
    assert_eq!(parse_args(&args(&["mv", "--nope"])).unwrap_err(), "不明なオプション: '--nope'");
    assert_eq!(parse_args(&args(&["mv", "-T", "-tdir", "a"])).unwrap_err(),
        "--target-directory (-t) と --no-target-directory (-T) は同時に指定できません");
}

#[test]
fn backup_names() {
    assert_eq!(simple_backup("a.txt", "~"), "a.txt~");
    assert_eq!(numbered_backup("a.txt", 12), "a.txt.~12~");
    assert!(is_numbered_backup_of("a.txt.~3~", "a.txt"));
    assert!(!is_numbered_backup_of("a.txt~", "a.txt"));
    assert_eq!(default_backup_mode(Some("t")), BackupMode::Numbered);
    assert_eq!(default_backup_mode(Some("off")), BackupMode::Off);
    assert_eq!(default_backup_mode(None), BackupMode::Existing);
    assert_eq!(backup_arg("nil"), Ok(BackupMode::Existing));
}

#[test]
fn path_tests() {
    assert_eq!(strip_slashes("dir//\\", true), "dir");
    assert_eq!(strip_slashes("dir/", false), "dir/");
    assert!(is_within("C:/Data", "c:/data/sub"));
    assert!(!is_within("c:/data", "c:/database"));
    assert!(!is_within("c:/data", "c:/data"));
    assert!(names_differ_only_in_case("File.txt", "file.txt"));
    assert!(!names_differ_only_in_case("file.txt", "file.txt"));
}

#[test]
fn stripping_twice_is_stripping_once() {
    let once = strip_slashes("a/b//", true);
    assert_eq!(strip_slashes(&once, true), once);
    assert_eq!(once, "a/b");
}
