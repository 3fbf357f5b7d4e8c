use posix_tools::groff::fill::Adjust;
use posix_tools::groff::roff::{
    length_queries, output_before, parse_condition, Before, Condition, Effect, Roff, Scale,
};
use posix_tools::groff::special::Device;

fn fresh() -> Roff {
    Roff::new(Device::Utf8, 2026, 1, 2, &[], &[])
}

fn strs(v: &[&str]) -> Vec<String> {
    v.iter().map(|s| s.to_string()).collect()
}

fn req(r: &mut Roff, name: &str, tail: &str, lengths: &[Option<i64>]) -> Vec<Effect> {
    let args = posix_tools::groff::split_args(tail);
    assert!(r.request_ok(name, &args, lengths));
    r.request(name, tail, &args, lengths, None)
}

fn man(r: &mut Roff, name: &str, args: &[&str], lengths: &[Option<i64>]) -> Vec<Effect> {
    let args = strs(args);
    assert!(r.man_macro_ok(name, &args, lengths));
    r.man_macro(name, &args, lengths)
}

#[test]
fn roff_starts_with_predefined_names() {
    let mut r = fresh();
    assert_eq!(r.ll, 78);
    assert_eq!(r.string_value(".T"), Some("utf8".to_string()));
    assert_eq!(r.string_value("R"), Some("\\(rg".to_string()));
    assert_eq!(r.read_register("yr", 0), 126);
    assert_eq!(r.read_register("mo", 0), 1);
    assert_eq!(r.read_register(".l", 0), 78 * 24);
    assert_eq!(r.read_register(".u", 0), 1);
    assert_eq!(r.tab_stops[..3], [5, 10, 15]);
    let r = Roff::new(Device::Ascii, 2026, 1, 2, &[("x".to_string(), "y".to_string())], &[("LL".to_string(), Some(1200))]);
    assert_eq!(r.ll, 50);
    assert_eq!(r.string_value("x"), Some("y".to_string()));
    assert_eq!(r.string_value(".T"), Some("ascii".to_string()));
}

#[test]
fn th_sets_title_and_default_manual() {
    let mut r = fresh();
    assert_eq!(output_before(&r, "TH", "FOO 5", &[]), Before::Flush { adjust_both: false });
    let e = man(&mut r, "TH", &["FOO", "5"], &[]);
    assert_eq!(e.len(), 1);
    match &e[0] {
        Effect::Title { title, section, date, source, manual } => {
            assert_eq!(title, "FOO");
            assert_eq!(section, "5");
            assert_eq!(date, "");
            assert_eq!(source, "");
            assert_eq!(manual, "File Formats Manual");
        }
        other => panic!("unexpected {:?}", other),
    }
    assert_eq!((r.ind.base_indent, r.ind.indent), (7, 7));
    assert!(r.page.no_space && r.page.after_heading);
}

#[test]
fn headings_and_hanging_paragraph_after_them() {
    let mut r = fresh();
    let e = man(&mut r, "SH", &["NAME"], &[]);
    match &e[0] {
        Effect::Heading { text, col } => assert_eq!((text.as_str(), *col), ("NAME", 0)),
        other => panic!("unexpected {:?}", other),
    }
    assert!(r.fill);
    assert_eq!(r.pending_heading, None);
    assert_eq!(output_before(&r, "HP", "", &[]), Before::DoubleBlank);
    let e = man(&mut r, "SS", &[], &[]);
    assert!(e.is_empty());
    assert_eq!(r.pending_heading, Some(3));
}

#[test]
fn man_indents_and_paragraph_distance() {
    let mut r = fresh();
    assert_eq!(length_queries("RS", "4", &strs(&["4"])), vec![("4".to_string(), Scale::Columns)]);
    man(&mut r, "RS", &["4"], &[Some(4)]);
    assert_eq!((r.ind.base_indent, r.ind.indent), (11, 11));
    man(&mut r, "RE", &[], &[]);
    assert_eq!((r.ind.base_indent, r.ind.indent), (7, 7));
    man(&mut r, "PD", &["0"], &[Some(0)]);
    assert_eq!(r.pd, 0);
    man(&mut r, "PD", &[], &[]);
    assert_eq!(r.pd, 1);
    let e = man(&mut r, "TP", &[], &[]);
    assert!(matches!(e[0], Effect::ClearTag));
    assert_eq!(r.tag_pending, Some(7));
    assert_eq!(r.adjust, Adjust::Both);
    assert_eq!(length_queries("IP", "x 3", &strs(&["\\(bu", "3"])), vec![("3".to_string(), Scale::Columns)]);
    let e = man(&mut r, "IP", &["\\(bu", "3"], &[Some(3)]);
    match &e[0] {
        Effect::Tag { tag, font } => assert_eq!((tag.as_str(), *font), ("\\(bu", 'R')),
        other => panic!("unexpected {:?}", other),
    }
    assert_eq!(r.tag_pending, Some(3));
    man(&mut r, "IP", &[], &[]);
    assert_eq!((r.ind.indent, r.ind.temp_indent), (10, None));
}

#[test]
fn font_macros_and_links() {
    let mut r = fresh();
    let e = man(&mut r, "BR", &["ls", "(1)"], &[]);
    match &e[0] {
        Effect::EmitAlternating { args, first, second } => {
            assert_eq!(args, &strs(&["ls", "(1)"]));
            assert_eq!((*first, *second), ('B', 'R'));
        }
        other => panic!("unexpected {:?}", other),
    }
    let e = man(&mut r, "B", &["bold", "text"], &[]);
    match &e[0] {
        Effect::EmitText { text, font } => assert_eq!((text.as_str(), *font), ("bold text", 'B')),
        other => panic!("unexpected {:?}", other),
    }
    assert!(man(&mut r, "I", &[], &[]).is_empty());
    assert_eq!(r.next_line_font, Some('I'));
    man(&mut r, "UR", &["https://example.com"], &[]);
    assert_eq!(r.link_url, Some("https://example.com".to_string()));
    let e = man(&mut r, "UE", &["."], &[]);
    match &e[0] {
        Effect::EmitLink { url, trailing } => {
            assert_eq!(url, "https://example.com");
            assert_eq!(trailing.as_deref(), Some("."));
        }
        other => panic!("unexpected {:?}", other),
    }
    assert_eq!(r.link_url, None);
    man(&mut r, "DT", &[], &[]);
    assert_eq!(r.tab_stops.len(), 20);
    assert_eq!(r.tab_stops[1], 16);
}

#[test]
fn strings_and_registers() {
    let mut r = fresh();
    req(&mut r, "ds", "foo BAR", &[]);
    assert_eq!(r.string_value("foo"), Some("BAR".to_string()));
    req(&mut r, "as", "foo X", &[]);
    assert_eq!(r.string_value("foo"), Some("BARX".to_string()));
    req(&mut r, "ds", "q \"hi there", &[]);
    assert_eq!(r.string_value("q"), Some("hi there".to_string()));
    assert_eq!(length_queries("nr", "x 42", &strs(&["x", "42"])), vec![("42".to_string(), Scale::Units)]);
    req(&mut r, "nr", "x 42", &[Some(42)]);
    assert_eq!(r.read_register("x", 0), 42);
    req(&mut r, "nr", "x +3 2", &[Some(3)]);
    assert_eq!(r.read_register("x", 0), 45);
    assert_eq!(r.read_register("x", 1), 47);
    assert_eq!(r.read_register("x", -1), 45);
    assert!(r.has_register("x"));
    req(&mut r, "rr", "x", &[]);
    assert!(!r.has_register("x"));
    req(&mut r, "rn", "foo bar", &[]);
    assert_eq!(r.string_value("foo"), None);
    assert_eq!(r.string_value("bar"), Some("BARX".to_string()));
    req(&mut r, "rm", "bar", &[]);
    assert!(!r.is_defined("bar"));
    let args = strs(&["y", "+1"]);
    req(&mut r, "nr", "y 1", &[Some(1)]);
    assert!(!r.request_ok("nr", &args, &[Some(i64::MAX)]));
}

#[test]
fn definitions_and_conditions() {
    let mut r = fresh();
    let e = req(&mut r, "de", "GR", &[]);
    match &e[0] {
        Effect::ReadDefinition { name, end, append } => {
            assert_eq!((name.as_str(), end.as_str(), *append), ("GR", "...", false));
        }
        other => panic!("unexpected {:?}", other),
    }
    r.define_macro("GR", strs(&["Hello \\$1!"]), false);
    r.define_macro("GR", strs(&["again"]), true);
    assert_eq!(r.macro_body("GR"), Some(strs(&["Hello \\$1!", "again"])));
    assert!(r.is_defined("GR"));
    let e = req(&mut r, "ig", "", &[]);
    assert!(matches!(&e[0], Effect::SkipBlock { end } if end == ".."));
    let e = req(&mut r, "ig", "END", &[]);
    assert!(matches!(&e[0], Effect::SkipBlock { end } if end == ".END"));
    let args = strs(&["n", "line-n"]);
    let e = r.request("ie", "n line-n", &args, &[], Some((true, "line-n".to_string())));
    assert!(matches!(&e[0], Effect::RunBody { run: true, body } if body == "line-n"));
    assert_eq!(r.el_stack, vec![false]);
    let e = req(&mut r, "el", "line-t", &[]);
    assert!(matches!(&e[0], Effect::RunBody { run: false, body } if body == "line-t"));
    assert!(r.el_stack.is_empty());
    let e = req(&mut r, "tm", "note", &[]);
    assert!(matches!(&e[0], Effect::Message { text } if text == "note"));
    let e = req(&mut r, "do", "br", &[]);
    assert!(matches!(&e[0], Effect::RunRequest { line } if line == ".br"));
}

#[test]
fn layout_requests() {
    let mut r = fresh();
    assert_eq!(output_before(&r, "sp", "2", &[Some(2)]), Before::Space(2));
    assert_eq!(output_before(&r, "sp", "", &[]), Before::Space(1));
    assert_eq!(output_before(&r, "ce", "", &[]), Before::Flush { adjust_both: false });
    req(&mut r, "ce", "", &[]);
    assert_eq!(r.ce_count, 1);
    req(&mut r, "nf", "", &[]);
    assert!(!r.fill);
    req(&mut r, "fi", "", &[]);
    assert!(r.fill);
    assert_eq!(length_queries("ll", "+2", &strs(&["+2"])), vec![("2".to_string(), Scale::Columns)]);
    req(&mut r, "ll", "40", &[Some(40)]);
    assert_eq!(r.ll, 40);
    req(&mut r, "ll", "+2", &[Some(2)]);
    assert_eq!(r.ll, 42);
    req(&mut r, "ll", "", &[]);
    assert_eq!(r.ll, 78);
    req(&mut r, "in", "4", &[Some(4)]);
    assert_eq!(r.ind.indent, 4);
    req(&mut r, "in", "-10", &[Some(10)]);
    assert_eq!(r.ind.indent, 0);
    req(&mut r, "ad", "c", &[]);
    assert_eq!(r.adjust, Adjust::Center);
    req(&mut r, "ft", "B", &[]);
    assert_eq!((r.font, r.prev_font), ('B', 'R'));
    req(&mut r, "ft", "", &[]);
    assert_eq!((r.font, r.prev_font), ('R', 'B'));
    req(&mut r, "ta", "4 +6", &[Some(4), Some(6)]);
    assert_eq!(r.tab_stops[..3], [4, 10, 16]);
    assert!(!r.request_ok("ta", &strs(&["8", "4"]), &[Some(8), Some(4)]));
    req(&mut r, "ss", "12 0", &[]);
    assert_eq!(r.sentence_gap_extra, 0);
    req(&mut r, "ls", "2", &[]);
    assert_eq!(r.page.line_spacing, 2);
    req(&mut r, "ex", "", &[]);
    assert!(r.exited);
}

#[test]
fn conditions_are_read_and_tested() {
    let mut r = fresh();
    let (neg, test, body) = parse_condition("n YES-N").unwrap();
    assert!(!neg && r.test_holds(&test, false));
    assert_eq!(body, "YES-N");
    let (neg, test, body) = parse_condition("t YES-T").unwrap();
    assert!(!neg && !r.test_holds(&test, false));
    assert_eq!(body, "YES-T");
    let (neg, test, _) = parse_condition("!!!n x").unwrap();
    assert!(neg && r.test_holds(&test, false));
    let (_, test, body) = parse_condition("'foo'foo' SAME").unwrap();
    assert!(r.test_holds(&test, false));
    assert_eq!(body, "SAME");
    let (_, test, _) = parse_condition("'foo'bar' DIFF").unwrap();
    assert!(!r.test_holds(&test, false));
    let (_, test, body) = parse_condition("5>3 BIG").unwrap();
    assert!(matches!(&test, Condition::Numeric(e) if e == "5>3 BIG"));
    assert_eq!(body, "");
    assert!(r.test_holds(&test, true));
    let (_, test, body) = parse_condition("d foo X").unwrap();
    assert!(!r.test_holds(&test, false));
    assert_eq!(body, "X");
    req(&mut r, "ds", "foo 1", &[]);
    assert!(r.test_holds(&test, false));
    assert!(parse_condition("  !!").is_none());
}
