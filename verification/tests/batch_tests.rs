use posix_tools::find::batch::{cmdline_len_of, cmdline_limit, template_len, BatchExecutor};

fn words(v: &[&str]) -> Vec<String> {
    v.iter().map(|s| s.to_string()).collect()
}

#[test]
fn command_line_lengths_count_utf16_units() {
    assert_eq!(cmdline_len_of("abc"), 6);
    assert_eq!(cmdline_len_of("日本"), 5);
    assert_eq!(cmdline_len_of("😀"), 5);
    assert_eq!(template_len(&words(&["echo", "{}"])), 12);
}

#[test]
fn files_are_gathered_until_flush() {
    let mut b = BatchExecutor::new(1000);
    let t = words(&["echo", "{}", "end"]);
    assert!(b.add(&t, "a", None).is_none());
    assert!(b.add(&t, "b", None).is_none());
    let runs = b.flush();
    assert_eq!(runs.len(), 1);
    assert_eq!(runs[0].command, words(&["echo", "a", "b", "end"]));
    assert_eq!(runs[0].dir, None);
    assert!(b.flush().is_empty());
    assert!(!b.had_failure());
}

#[test]
fn files_follow_a_template_without_placeholder() {
    let mut b = BatchExecutor::new(1000);
    let t = words(&["ls", "-l"]);
    b.add(&t, "x", Some("/tmp"));
    b.add(&t, "y", None);
    let runs = b.flush();
    assert_eq!(runs.len(), 2);
    assert_eq!(runs[0].command, words(&["ls", "-l", "x"]));
    assert_eq!(runs[0].dir, Some("/tmp".to_string()));
    assert_eq!(runs[1].command, words(&["ls", "-l", "y"]));
}

#[test]
fn a_full_batch_is_run_before_the_next_file() {
    let t = words(&["rm", "{}"]);
    let mut b = BatchExecutor::new(20);
    assert!(b.add(&t, "aaaa", None).is_none());
    let run = b.add(&t, "bbbb", None).expect("limit reached");
    assert_eq!(run.command, words(&["rm", "aaaa"]));
    let rest = b.flush();
    assert_eq!(rest[0].command, words(&["rm", "bbbb"]));
}

#[test]
fn failures_are_remembered() {
    let mut b = BatchExecutor::new(100);
    b.note_outcome(true);
    assert!(!b.had_failure());
    b.note_outcome(false);
    b.note_outcome(true);
    assert!(b.had_failure());
}

#[test]
fn command_line_limits() {
    assert_eq!(cmdline_limit(Some(2097152)), 2097152 - 2560);
    assert_eq!(cmdline_limit(Some(3000)), 4096);
    assert_eq!(cmdline_limit(Some(0)), 32000);
    assert_eq!(cmdline_limit(None), 32000);
}
