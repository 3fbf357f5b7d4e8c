use posix_tools::kill::args::parse_args;
use posix_tools::kill::targets::{glob_match, is_glob_pattern, resolve_targets};
use posix_tools::kill::{names_process, parse_signal, signal_conversion, signal_name, signal_names_line, signal_table,
    target_kind, TargetKind};

fn args(v: &[&str]) -> Vec<String> {
    v.iter().map(|s| s.to_string()).collect()
}

#[test]
fn signal_names_and_numbers() {
    assert_eq!(signal_name(9), Some("KILL"));
    assert_eq!(signal_name(32), None);
    assert_eq!(parse_signal("term"), Ok(15));
    assert_eq!(parse_signal("SIGKILL"), Ok(9));
    assert_eq!(parse_signal("SIGSIGHUP"), Ok(1));
    assert_eq!(parse_signal("64"), Ok(64));
    assert_eq!(parse_signal("65"), Err("不正なシグナル番号: '65'".to_string()));
    assert_eq!(parse_signal("-1"), Err("不正なシグナル番号: '-1'".to_string()));
    assert_eq!(parse_signal("FOO"), Err("不明なシグナル名: 'FOO'".to_string()));
}

#[test]
fn default_signal_is_term() {
    let (o, t) = parse_args(&args(&["kill", "1234"])).unwrap();
    assert_eq!(o.signal, 15);
    assert_eq!(t, args(&["1234"]));
}

#[test]
fn signal_option_forms() {
    assert_eq!(parse_args(&args(&["kill", "-9", "1"])).unwrap().0.signal, 9);
    assert_eq!(parse_args(&args(&["kill", "-KILL", "1"])).unwrap().0.signal, 9);
    assert_eq!(parse_args(&args(&["kill", "-INT", "1"])).unwrap().0.signal, 2);
    // `-s` followed by more letters takes them as the signal
    assert_eq!(parse_args(&args(&["kill", "-sigint", "1"])).unwrap_err(), "不明なシグナル名: 'igint'");
    assert_eq!(parse_args(&args(&["kill", "-s", "HUP", "1"])).unwrap().0.signal, 1);
    assert_eq!(parse_args(&args(&["kill", "-sQUIT", "1"])).unwrap().0.signal, 3);
    assert_eq!(parse_args(&args(&["kill", "-n", "7", "1"])).unwrap().0.signal, 7);
    assert_eq!(parse_args(&args(&["kill", "--signal=USR1", "1"])).unwrap().0.signal, 10);
    let (o, t) = parse_args(&args(&["kill", "--", "-5"])).unwrap();
    assert_eq!(o.signal, 15);
    assert_eq!(t, args(&["-5"]));
}

#[test]
fn list_options() {
    let (o, t) = parse_args(&args(&["kill", "-l", "9", "TERM", "-L"])).unwrap();
    assert!(o.list_signals && o.list_table);
    assert_eq!(o.list_args, args(&["9", "TERM"]));
    assert!(t.is_empty());
}

#[test]
fn kill_option_errors() {
    assert_eq!(parse_args(&args(&["kill", "-s"])).unwrap_err(), "オプション '-s' には引数が必要です");
    assert_eq!(parse_args(&args(&["kill", "-n", "x"])).unwrap_err(), "不正なシグナル番号: 'x'");
    assert_eq!(parse_args(&args(&["kill", "-9x"])).unwrap_err(), "不正なシグナル番号: '9x'");
    assert_eq!(parse_args(&args(&["kill", "-FOO"])).unwrap_err(), "不明なオプション: '-FOO'");
    assert_eq!(parse_args(&args(&["kill", "--bad"])).unwrap_err(), "不明なオプション: '--bad'");
}

#[test]
fn conversions() {
    assert_eq!(signal_conversion("9"), Ok("KILL".to_string()));
    assert_eq!(signal_conversion("sigterm"), Ok("15".to_string()));
    assert_eq!(signal_conversion("99"), Err("kill: 99: 不明なシグナル".to_string()));
    assert_eq!(signal_conversion("nope"), Err("kill: nope: 不明なシグナル".to_string()));
}

#[test]
fn listings() {
    let line = signal_names_line();
    assert!(line.starts_with("HUP INT QUIT ILL"));
    assert!(line.ends_with("PWR SYS"));
    let table = signal_table();
    assert!(table.starts_with(" 1) HUP      2) INT      3) QUIT     4) ILL     \n"));
    assert!(table.ends_with("31) SYS     \n"));
    assert_eq!(table.lines().count(), 8);
}

#[test]
fn glob_matching_is_bytewise() {
    assert!(glob_match(b"notepad.exe", b"note*"));
    assert!(glob_match(b"notepad.exe", b"n?tepad.*"));
    assert!(!glob_match(b"notepad.exe", b"calc*"));
    assert!(glob_match(b"ba", b"*a"));
    assert!(glob_match(b"notepad.exe", b"*pad*"));
    assert!(glob_match(b"abc", b"*c"));
    assert!(!glob_match(b"abc", b"a?d"));
    assert!(glob_match(b"", b"*"));
    assert!(!glob_match(b"", b"?"));
    assert!(glob_match(b"abc", b"a*c"));
    assert!(is_glob_pattern("a[bc]"));
    assert!(!is_glob_pattern("plain"));
}

#[test]
fn targets_are_resolved_sorted_and_unique() {
    let running = args(&["Notepad.exe", "calc.exe", "notes.exe"]);
    let r = resolve_targets(&args(&["no*", "42", "calc.exe", "42"]), &running);
    assert_eq!(r, args(&["42", "Notepad.exe", "calc.exe", "notes.exe"]));
}

#[test]
fn target_kinds_and_names() {
    assert_eq!(target_kind("1234"), TargetKind::Pid(1234));
    assert_eq!(target_kind("-3"), TargetKind::Group(-3));
    assert_eq!(target_kind("0"), TargetKind::Zero);
    assert_eq!(target_kind("notepad"), TargetKind::Name);
    assert!(names_process("NOTEPAD.EXE", "notepad"));
    assert!(names_process("notepad.exe", "Notepad.exe"));
    assert!(!names_process("notepad2.exe", "notepad"));
}

#[test]
fn every_signal_name_leads_back() {
    for n in 1..=31 {
        let name = signal_name(n).unwrap();
        assert_eq!(parse_signal(name), Ok(n));
        assert_eq!(signal_conversion(name), Ok(n.to_string()));
    }
}
