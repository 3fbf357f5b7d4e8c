use posix_tools::groff::special::{special_char, Device};
use posix_tools::groff::{char_width, consume_size_escape, default_section_name, ends_with_continuation, is_man_macro,
    is_sentence_end, is_wide_char, read_delim_arg, read_escape_name, split_args, strip_sgr, three_part, visible_width};

#[test]
fn split_args_quotes() {
    assert_eq!(split_args("a \"b c\" d"), vec!["a", "b c", "d"]);
    assert_eq!(split_args("\"x \"\"y\"\" z\""), vec!["x \"y\" z"]);
}

#[test]
fn split_args_keeps_escaped_blanks_and_unclosed_quotes() {
    assert_eq!(split_args("a\\ b\tc"), vec!["a\\ b", "c"]);
    assert_eq!(split_args("  \"open arg"), vec!["open arg"]);
    assert_eq!(split_args("\"\" x"), vec!["", "x"]);
    assert!(split_args(" \t ").is_empty());
}

#[test]
fn widths_of_characters_and_text() {
    assert_eq!(char_width('a'), 1);
    assert_eq!(char_width('漢'), 2);
    assert_eq!(char_width('\u{200B}'), 0);
    assert!(is_wide_char('\u{AC00}'));
    assert!(!is_wide_char('\u{D7A4}'));
    assert_eq!(visible_width("\x1b[1mab\x1b[0m漢"), 4);
    assert_eq!(strip_sgr("\x1b[4mx\x1b[24my"), "xy");
}

#[test]
fn sentence_ends() {
    assert!(is_sentence_end("done."));
    assert!(is_sentence_end("(really?)\""));
    assert!(!is_sentence_end("e.g.\u{E000}"));
    assert!(!is_sentence_end("word"));
    assert!(is_sentence_end("\x1b[1mend!\x1b[0m"));
}

#[test]
fn continuation_needs_an_odd_number_of_backslashes() {
    assert!(ends_with_continuation("text \\"));
    assert!(!ends_with_continuation("text \\\\"));
    assert!(ends_with_continuation("\\\\\\"));
    assert!(!ends_with_continuation("plain"));
}

#[test]
fn man_macros_and_sections() {
    assert!(is_man_macro("TH"));
    assert!(is_man_macro("UC"));
    assert!(!is_man_macro("th"));
    assert_eq!(default_section_name("1"), "General Commands Manual");
    assert_eq!(default_section_name("3p"), "Library Functions Manual");
    assert_eq!(default_section_name("x"), "");
    assert_eq!(default_section_name(""), "");
}

#[test]
fn escape_names_and_arguments() {
    let chars: Vec<char> = "(emrest".chars().collect();
    let mut i = 0;
    assert_eq!(read_escape_name(&chars, &mut i), "em");
    assert_eq!(i, 3);
    let long: Vec<char> = "[name]x".chars().collect();
    let mut j = 0;
    assert_eq!(read_escape_name(&long, &mut j), "name");
    assert_eq!(j, 6);
    let one: Vec<char> = "B".chars().collect();
    let mut k = 0;
    assert_eq!(read_escape_name(&one, &mut k), "B");
    let delim: Vec<char> = "'3n'tail".chars().collect();
    let mut d = 0;
    assert_eq!(read_delim_arg(&delim, &mut d), Some("3n".to_string()));
    assert_eq!(d, 4);
    let mut end = delim.len();
    assert_eq!(read_delim_arg(&delim, &mut end), None);
}

#[test]
fn size_escapes_are_skipped() {
    let s: Vec<char> = "+12x".chars().collect();
    let mut i = 0;
    consume_size_escape(&s, &mut i);
    assert_eq!(i, 3);
    let t: Vec<char> = "5x".chars().collect();
    let mut j = 0;
    consume_size_escape(&t, &mut j);
    assert_eq!(j, 1);
    let b: Vec<char> = "[10]y".chars().collect();
    let mut k = 0;
    consume_size_escape(&b, &mut k);
    assert_eq!(k, 4);
}

#[test]
fn header_line_has_three_parts() {
    let expected = format!("LS(1){}User Commands{}LS(1)", " ".repeat(9), " ".repeat(8));
    assert_eq!(three_part("LS(1)", "User Commands", "LS(1)", 40), expected);
    assert_eq!(three_part("a", "b", "c", 3), "a b c");
}

#[test]
fn special_characters_by_device() {
    assert_eq!(special_char("em", Device::Utf8), Some("\u{2014}".to_string()));
    assert_eq!(special_char("em", Device::Ascii), Some("--".to_string()));
    assert_eq!(special_char("rs", Device::Ascii), Some("\\".to_string()));
    assert_eq!(special_char("u00E9", Device::Ascii), Some("é".to_string()));
    assert_eq!(special_char("uD800", Device::Utf8), None);
    assert_eq!(special_char("hy", Device::Latin1), Some("-".to_string()));
    assert_eq!(special_char("zz", Device::Utf8), None);
}
