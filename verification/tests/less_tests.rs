use posix_tools::less::layout::{expand_tabs, squeeze_blank_lines, truncate_to_width, wrap_line};
use posix_tools::less::pager::{Action, Key, Pager};
use posix_tools::less::{parse_args, Options, PromptMode};

fn args(v: &[&str]) -> Vec<String> {
    v.iter().map(|s| s.to_string()).collect()
}

fn pager(n: usize, rows: u16) -> Pager {
    let lines: Vec<String> = (1..=n).map(|i| format!("line {}", i)).collect();
    let (opts, _) = parse_args(&args(&["less"])).unwrap();
    Pager::new(lines, "f.txt".to_string(), Some("f.txt".to_string()), opts, 80, rows)
}

#[test]
fn less_option_forms() {
    let (o, files) = parse_args(&args(&["less", "-NSx4", "+20", "--pattern=abc", "a.txt", "--", "-b"])).unwrap();
    assert!(o.number && o.chop_long);
    assert_eq!(o.tab_stop, 4);
    assert_eq!(o.start_line, Some(20));
    assert_eq!(o.start_pattern, Some("abc".to_string()));
    assert_eq!(files, args(&["a.txt", "-b"]));
    let (o, _) = parse_args(&args(&["less", "-M", "-p", "foo", "+F", "--tabs=x"])).unwrap();
    assert!(o.prompt_mode == PromptMode::Long && o.follow_mode);
    assert_eq!(o.start_pattern, Some("foo".to_string()));
    assert_eq!(o.tab_stop, 8);
    assert_eq!(parse_args(&args(&["less", "-q"])).unwrap_err(), "不明なオプション: '-q'");
    assert_eq!(parse_args(&args(&["less", "--bad"])).unwrap_err(), "不明なオプション: '--bad'");
}

#[test]
fn tabs_wrap_and_cut() {
    assert_eq!(expand_tabs("a\tb", 4), "a   b");
    assert_eq!(expand_tabs("\tx", 8), "        x");
    assert_eq!(wrap_line("abcdef", 4), args(&["abcd", "ef"]));
    assert_eq!(wrap_line("", 4), args(&[""]));
    assert_eq!(wrap_line("あい", 3), args(&["あ", "い"]));
    assert_eq!(wrap_line("abc", 0), args(&["abc"]));
    assert_eq!(truncate_to_width("abcdef", 3), "abc");
    assert_eq!(truncate_to_width("aあ", 2), "a");
}

#[test]
fn blank_runs_are_squeezed() {
    let r = squeeze_blank_lines(&args(&["a", "", "  ", "b", "", "c"]));
    assert_eq!(r, args(&["a", "", "b", "", "c"]));
}

#[test]
fn keys_move_and_count() {
    let mut p = pager(100, 11);
    assert_eq!(p.handle_key(Key::Char('j'), false), Action::Continue);
    assert_eq!(p.top_line, 1);
    p.handle_key(Key::Char('5'), false);
    assert_eq!(p.message, Some(":5".to_string()));
    p.handle_key(Key::Char('j'), false);
    assert_eq!(p.top_line, 6);
    assert_eq!(p.message, None);
    p.handle_key(Key::Char(' '), false);
    assert_eq!(p.top_line, 15);
    p.handle_key(Key::Char('G'), false);
    assert_eq!(p.top_line, 90);
    assert_eq!(p.build_prompt(), "(END)");
    p.handle_key(Key::Char('g'), false);
    assert_eq!(p.top_line, 0);
    assert_eq!(p.build_prompt(), "f.txt:");
    p.handle_key(Key::Char('4'), false);
    p.handle_key(Key::Char('2'), false);
    p.handle_key(Key::Char('g'), false);
    assert_eq!(p.top_line, 41);
    assert_eq!(p.handle_key(Key::Char('q'), false), Action::Quit);
    assert_eq!(p.handle_key(Key::Char('c'), true), Action::Quit);
    assert_eq!(p.handle_key(Key::Char('/'), false), Action::Search(true));
}

#[test]
fn search_and_filter() {
    let mut p = pager(30, 11);
    p.search_entered("line 2".to_string(), true);
    assert_eq!(p.top_line, 1);
    p.handle_key(Key::Char('n'), false);
    assert_eq!(p.top_line, 19);
    p.search_entered("nothing".to_string(), true);
    assert_eq!(p.message, Some("Pattern not found".to_string()));
    p.filter_entered("LINE 3".to_string());
    assert_eq!(p.display_lines.len(), 2);
    assert_eq!(p.handle_key(Key::Esc, false), Action::Continue);
    assert_eq!(p.display_lines.len(), 30);
    assert_eq!(p.handle_key(Key::Esc, false), Action::Quit);
}

#[test]
fn prompts_and_info() {
    let mut p = pager(100, 11);
    p.opts.prompt_mode = PromptMode::Medium;
    assert_eq!(p.build_prompt(), "10%");
    p.opts.prompt_mode = PromptMode::Long;
    assert_eq!(p.build_prompt(), "f.txt lines 1-10/100 10%");
    p.handle_key(Key::Char('='), false);
    let bytes: usize = (1..=100).map(|i| format!("line {}", i).len() + 1).sum();
    assert_eq!(p.message, Some(format!("f.txt lines 1-10 / 100 lines ({} bytes)", bytes)));
    assert_eq!(p.editor_line(), 1);
    let _unused: Option<Options> = None;
}

#[test]
fn wrapped_pieces_rejoin() {
    for w in 0..6 {
        let text = "ab\u{3042}cdef\u{3044}g";
        assert_eq!(wrap_line(text, w).concat(), text);
    }
}
