use posix_tools::groff::macros::{alt_fonts, alt_piece, join_alternating, link_word, macro_font, option_word, tag_padding};
use posix_tools::groff::fill::{adjust_of, join_words, placement, set_line, Placement, spread_gaps, tab_stops_fit, tab_stops_of, Adjust};
use posix_tools::groff::indent::Indents;
use posix_tools::groff::page::{page_text, PageOutput};
use posix_tools::groff::render::{map_font_name, TextStyle, Word};
use posix_tools::groff::special::Device;

fn style(fill: bool, styled: bool) -> TextStyle {
    TextStyle {
        device: Device::Utf8,
        styled,
        fill,
        font: 'R',
        prev_font: 'R',
        pending_connect: false,
        line_width: 0,
        tab_stops: vec![8, 16, 24],
    }
}

fn texts(words: &[Word]) -> Vec<String> {
    words.iter().map(|w| w.text.clone()).collect()
}

#[test]
fn fill_mode_splits_words_and_marks_sentence_end() {
    let mut st = style(true, false);
    let r = st.render_words("hello   world.", &[]);
    assert_eq!(texts(&r.words), vec!["hello", "world."]);
    assert_eq!(r.words[0].width, 5);
    assert_eq!(r.words[0].gap, 1);
    assert_eq!(r.words[1].gap, 3);
    assert!(!r.words[0].sentence_end);
    assert!(r.words[1].sentence_end);
    assert!(r.breaks.is_empty());
}

#[test]
fn font_escapes_write_sgr_codes() {
    let mut st = style(true, true);
    let r = st.render_words("\\fBbold\\fR text", &[]);
    assert_eq!(texts(&r.words), vec!["\x1b[1mbold\x1b[0m", "text"]);
    assert_eq!(r.words[0].width, 4);
    assert_eq!(st.font, 'R');
    assert_eq!(st.prev_font, 'B');
    let mut plain = style(true, false);
    let r = plain.render_words("\\fIit\\fP", &[]);
    assert_eq!(texts(&r.words), vec!["it"]);
    assert_eq!(plain.font, 'R');
}

#[test]
fn special_characters_and_plain_escapes() {
    let mut st = style(true, false);
    let r = st.render_words("a\\(emb \\-x \\e", &[]);
    assert_eq!(texts(&r.words), vec!["a\u{2014}b", "\u{2011}x", "\\"]);
    assert_eq!(r.words[0].width, 3);
}

#[test]
fn no_fill_keeps_blanks_and_expands_tabs() {
    let mut st = style(false, false);
    let r = st.render_words("a  b", &[]);
    assert_eq!(texts(&r.words), vec!["a  b"]);
    assert_eq!(r.words[0].width, 4);
    let mut st = style(false, false);
    let r = st.render_words("ab\tc", &[]);
    assert_eq!(texts(&r.words), vec!["ab      c"]);
    assert_eq!(r.words[0].width, 9);
    let mut st = style(false, false);
    st.line_width = 10;
    let r = st.render_words("\tx", &[]);
    assert_eq!(texts(&r.words), vec!["      x"]);
}

#[test]
fn motions_are_taken_in_order() {
    let st = style(true, false);
    assert_eq!(st.motion_args("x\\h'3n'y\\h'-1'z"), vec!["3n".to_string(), "-1".to_string()]);
    let mut st = style(true, false);
    let r = st.render_words("x\\h'3n'y\\h'-1'z", &[Some(3), Some(-1)]);
    assert_eq!(texts(&r.words), vec!["x   yz"]);
    assert_eq!(r.words[0].width, 6);
    let mut st = style(true, false);
    let r = st.render_words("x\\h'3n'y", &[]);
    assert_eq!(texts(&r.words), vec!["xy"]);
}

#[test]
fn spread_break_and_connect_and_comment() {
    let mut st = style(true, false);
    let r = st.render_words("one\\ptwo", &[]);
    assert_eq!(texts(&r.words), vec!["one", "two"]);
    assert_eq!(r.breaks, vec![1]);
    let mut st = style(true, false);
    let r = st.render_words("end.\\c", &[]);
    assert_eq!(texts(&r.words), vec!["end."]);
    assert!(!r.words[0].sentence_end);
    assert!(st.pending_connect);
    let mut st = style(true, false);
    let r = st.render_words("text \\\" comment", &[]);
    assert_eq!(texts(&r.words), vec!["text"]);
    let mut st = style(true, false);
    let r = st.render_words("\\fI", &[]);
    assert!(r.words.is_empty());
    assert_eq!(st.font, 'I');
}

#[test]
fn font_names() {
    assert_eq!(map_font_name("B"), 'B');
    assert_eq!(map_font_name("BI"), 'X');
    assert_eq!(map_font_name("CI"), 'I');
    assert_eq!(map_font_name("3"), 'B');
    assert_eq!(map_font_name("P"), 'P');
    assert_eq!(map_font_name("CW"), 'R');
}

fn word(text: &str, gap: usize, adjustable: bool) -> Word {
    Word { text: text.to_string(), width: text.chars().count(), gap, sentence_end: false, adjustable }
}

#[test]
fn justified_line_fills_the_room() {
    let words = vec![word("a", 0, true), word("b", 1, true), word("c", 1, true)];
    let (gaps, stretched) = spread_gaps(&words, 10, false);
    assert!(stretched);
    assert_eq!(gaps, vec![0, 4, 3]);
    let (gaps, _) = spread_gaps(&words, 10, true);
    assert_eq!(gaps, vec![0, 3, 4]);
    let width: usize = words.iter().map(|w| w.width).sum::<usize>() + gaps.iter().sum::<usize>();
    assert_eq!(width, 10);
}

#[test]
fn fixed_gaps_and_full_lines_stay() {
    let words = vec![word("a", 0, true), word("b", 1, false), word("c", 1, true)];
    assert_eq!(spread_gaps(&words, 10, false), (vec![0, 1, 1], false));
    let words = vec![word("a", 0, true), word("b", 1, true)];
    assert_eq!(spread_gaps(&words, 3, false), (vec![0, 1], false));
    assert_eq!(spread_gaps(&words, 2, false), (vec![0, 1], false));
}

#[test]
fn relative_insets_open_and_close() {
    let mut ind = Indents::new();
    assert_eq!((ind.base_indent, ind.prevail_indent, ind.indent), (7, 7, 0));
    ind.rs(None);
    assert_eq!((ind.base_indent, ind.indent), (14, 14));
    ind.rs(Some(4));
    assert_eq!(ind.rs_stack, vec![7, 4]);
    assert_eq!(ind.base_indent, 18);
    ind.re(None);
    assert_eq!((ind.base_indent, ind.indent), (14, 14));
    ind.rs(Some(2));
    ind.rs(Some(3));
    ind.re(Some(1));
    assert!(ind.rs_stack.is_empty());
    assert_eq!(ind.base_indent, 7);
    ind.re(None);
    assert_eq!(ind.base_indent, 7);
}

#[test]
fn paragraph_indents() {
    let mut ind = Indents::new();
    ind.rs(Some(3));
    ind.set_prevailing(Some(4));
    ind.hanging();
    assert_eq!((ind.indent, ind.temp_indent), (14, Some(10)));
    ind.untagged();
    assert_eq!((ind.indent, ind.temp_indent), (14, None));
    ind.paragraph();
    assert_eq!((ind.prevail_indent, ind.indent), (7, 10));
    ind.section();
    assert_eq!((ind.base_indent, ind.indent, ind.rs_stack.len()), (7, 7, 0));
}

#[test]
fn alternating_font_pieces_join() {
    assert_eq!(alt_fonts("BR"), Some(('B', 'R')));
    assert_eq!(alt_fonts("IB"), Some(('I', 'B')));
    assert_eq!(alt_fonts("XX"), None);
    assert_eq!(macro_font("SB"), 'B');
    assert_eq!(macro_font("SM"), 'R');
    assert_eq!(alt_piece(" , "), (true, ",".to_string(), true));
    assert_eq!(alt_piece("a\\ "), (false, "a\\ ".to_string(), false));
    assert_eq!(alt_piece("   "), (true, String::new(), false));
    let mut result = vec![word("ls", 1, true)];
    join_alternating(&mut result, &[word("(1)", 1, true), word("x", 3, true)], true);
    assert_eq!(texts(&result), vec!["ls(1)", "x"]);
    assert_eq!(result[0].width, 5);
    assert_eq!(result[1].gap, 1);
    join_alternating(&mut result, &[word("y", 2, true)], false);
    assert_eq!(texts(&result), vec!["ls(1)", "x", "y"]);
    assert_eq!(result[2].gap, 1);
}

#[test]
fn link_option_and_tag_words() {
    let w = link_word("https://x.org", Some("."), Device::Utf8);
    assert_eq!(w.text, "\u{27E8}https://x.org\u{27E9}.");
    assert_eq!(w.width, 16);
    let w = link_word("u", None, Device::Ascii);
    assert_eq!(w.text, "<u>");
    assert_eq!(w.width, 3);
    let opt = vec![word("-f", 1, true)];
    let arg = vec![word("file", 1, true)];
    let w = option_word(&opt, Some(&arg));
    assert_eq!(w.text, "[-f file]");
    assert_eq!(w.width, 9);
    let w = option_word(&opt, None);
    assert_eq!(w.text, "[-f]");
    assert_eq!(w.width, 4);
    assert_eq!(tag_padding(3, 7), Some(3));
    assert_eq!(tag_padding(6, 7), Some(0));
    assert_eq!(tag_padding(7, 7), None);
}

#[test]
fn tab_stops_repeat_the_last_distance() {
    let specs = vec![(false, Some(4)), (true, Some(6))];
    assert!(tab_stops_fit(&specs));
    let stops = tab_stops_of(&specs).unwrap();
    assert_eq!(&stops[..4], &[4, 10, 16, 22]);
    assert_eq!(*stops.last().unwrap(), 400);
    let specs = vec![(false, Some(5)), (false, None)];
    let stops = tab_stops_of(&specs).unwrap();
    assert_eq!(&stops[..3], &[5, 10, 15]);
    assert_eq!(*stops.last().unwrap(), 400);
    assert_eq!(tab_stops_of(&[(false, None)]), None);
    assert!(!tab_stops_fit(&[(false, Some(8)), (false, Some(4))]));
    assert!(tab_stops_fit(&[(false, Some(8)), (false, Some(4)), (false, Some(9))]));
}

#[test]
fn page_text_ends_pages() {
    let out = vec!["a\u{2011}b".to_string(), "x\u{E000}y\u{E001}".to_string(), String::new(), String::new()];
    assert_eq!(page_text(&out, None), "a-b\nxy\n");
    assert_eq!(page_text(&out, Some("foot")), "a-b\nxy\n\n\n\nfoot\n");
    assert_eq!(page_text(&[], None), "\n");
    assert_eq!(page_text(&[String::new()], None), "\n");
}

#[test]
fn output_lines_are_set_by_adjust_mode() {
    let words = vec![word("ab", 0, true), word("cd", 1, true)];
    let gaps = vec![0, 1];
    assert_eq!(set_line(&words, &gaps, 2, Adjust::Left, 20), "  ab cd");
    assert_eq!(set_line(&words, &gaps, 2, Adjust::Both, 20), "  ab cd");
    assert_eq!(set_line(&words, &gaps, 2, Adjust::Right, 20), format!("{}ab cd", " ".repeat(15)));
    assert_eq!(set_line(&words, &gaps, 2, Adjust::Center, 20), format!("{}ab cd", " ".repeat(8)));
    let marks = vec![Word { text: "\u{E000}".to_string(), width: 0, gap: 0, sentence_end: false, adjustable: true }];
    assert_eq!(set_line(&marks, &[0], 5, Adjust::Left, 20), "");
    assert_eq!(adjust_of(Some("l")), Adjust::Left);
    assert_eq!(adjust_of(Some("c")), Adjust::Center);
    assert_eq!(adjust_of(Some("b")), Adjust::Both);
    assert_eq!(adjust_of(None), Adjust::Both);
}

#[test]
fn words_join_at_least_one_column_apart() {
    let words = vec![word("a", 5, true), word("bc", 0, true), word("d", 2, true)];
    assert_eq!(join_words(&words), ("a bc  d".to_string(), 7));
    assert_eq!(join_words(&[]), (String::new(), 0));
}

#[test]
fn words_are_placed_on_filled_lines() {
    assert_eq!(placement(true, false, 0, 1, 5, 1, 10, true), Placement::Fits(0));
    assert_eq!(placement(false, true, 4, 1, 3, 1, 10, true), Placement::Fits(2));
    assert_eq!(placement(false, false, 4, 1, 8, 1, 10, true), Placement::TrySplit { gap: 1, space: 5 });
    assert_eq!(placement(false, false, 4, 1, 8, 1, 10, false), Placement::Break);
    assert_eq!(placement(true, false, 0, 1, 12, 1, 10, false), Placement::Alone);
    assert_eq!(placement(false, false, 8, 1, 3, 1, 10, true), Placement::Break);
}

#[test]
fn page_output_spaces_lines_and_paragraphs() {
    let mut page = PageOutput::new();
    page.paragraph_space(1);
    assert!(page.lines.is_empty());
    assert!(page.no_space);
    page.blank_lines(2);
    assert!(page.lines.is_empty());
    page.no_space = false;
    page.line_spacing = 2;
    page.push_line("x".to_string());
    assert_eq!(page.lines, vec!["x".to_string(), String::new()]);
    page.paragraph_space(1);
    assert_eq!(page.lines.len(), 3);
    assert!(page.no_space && !page.after_heading);
    page.no_space = false;
    page.blank_lines(2);
    assert_eq!(page.lines.len(), 5);
}
