use posix_tools::find::expression::{
    Expression, FileType, NumericComparison, PermMode, SizeComparison, SizeUnit, Test,
};
use posix_tools::find::parser::{convert_regex_syntax, Parser, Query, RegexSyntax};

fn args(v: &[&str]) -> Vec<String> {
    v.iter().map(|s| s.to_string()).collect()
}

#[test]
fn test_parse_name() {
    let mut parser = Parser::new(args(&["-name", "*.txt"]));
    let result = parser.parse().unwrap();
    assert!(result.expression.is_some());
}

#[test]
fn test_parse_type() {
    let mut parser = Parser::new(args(&["-type", "f"]));
    let result = parser.parse().unwrap();
    assert!(result.expression.is_some());
}

#[test]
fn test_parse_complex_expression() {
    let mut parser = Parser::new(args(&["(", "-name", "*.txt", "-o", "-name", "*.rs", ")", "-type", "f"]));
    let result = parser.parse().unwrap();
    assert!(result.expression.is_some());
}

#[test]
fn test_numeric_comparison() {
    assert_eq!(NumericComparison::parse("+5"), Some(NumericComparison::GreaterThan(5)));
    assert_eq!(NumericComparison::parse("-3"), Some(NumericComparison::LessThan(3)));
    assert_eq!(NumericComparison::parse("10"), Some(NumericComparison::Exactly(10)));
}

#[test]
fn test_size_comparison() {
    let size = SizeComparison::parse("+1M").unwrap();
    assert!(matches!(size.comparison, NumericComparison::GreaterThan(1)));
    assert_eq!(size.unit, SizeUnit::Mebi);

    let size = SizeComparison::parse("100c").unwrap();
    assert!(matches!(size.comparison, NumericComparison::Exactly(100)));
    assert_eq!(size.unit, SizeUnit::Bytes);
}

#[test]
fn test_perm_mode() {
    let perm = PermMode::parse("644").unwrap();
    assert!(matches!(perm, PermMode::Exact(0o644)));

    let perm = PermMode::parse("-755").unwrap();
    assert!(matches!(perm, PermMode::All(0o755)));
}

#[test]
fn test_perm_mode_symbolic_exact_respects_operator_semantics() {
    assert_eq!(PermMode::parse("u=r"), Some(PermMode::Exact(0o400)));
    assert_eq!(PermMode::parse("u+w"), Some(PermMode::Exact(0o200)));
    assert_eq!(PermMode::parse("u-w"), Some(PermMode::Exact(0)));
    assert_eq!(PermMode::parse("u=rw,g=u"), Some(PermMode::Exact(0o660)));
    assert_eq!(PermMode::parse("u=X"), Some(PermMode::Exact(0)));
    assert_eq!(PermMode::parse("u+x,g+X"), Some(PermMode::Exact(0o110)));
}

#[test]
fn test_file_type() {
    assert_eq!(FileType::from_char('f'), Some(FileType::RegularFile));
    assert_eq!(FileType::from_char('d'), Some(FileType::Directory));
    assert_eq!(FileType::from_char('l'), Some(FileType::SymbolicLink));
    assert_eq!(FileType::from_char('x'), None);
}

#[test]
fn test_parse_rejects_trailing_tokens() {
    let mut parser = Parser::new(args(&["-name", "*.txt", "unexpected"]));
    assert!(parser.parse().is_err());
}

#[test]
fn test_parse_rejects_unmatched_closing_paren() {
    let mut parser = Parser::new(args(&["-name", "*.txt", ")"]));
    assert!(parser.parse().is_err());
}

#[test]
fn test_parse_accepts_escaped_parentheses_and_not() {
    let mut parser = Parser::new(args(&["\\(", "\\!", "-name", "*.txt", "\\)"]));
    let result = parser.parse().unwrap();
    assert!(result.expression.is_some());
}

#[test]
fn test_parse_accepts_escaped_exec_terminator() {
    let mut parser = Parser::new(args(&["-exec", "cmd", "/c", "echo", "{}", "\\;"]));
    let result = parser.parse().unwrap();
    assert!(result.expression.is_some());
}

#[test]
fn test_parse_multi_type() {
    let mut parser = Parser::new(args(&["-type", "f,d"]));
    let result = parser.parse().unwrap();
    match result.expression.unwrap() {
        Expression::Or(a, b) => {
            assert!(matches!(*a, Expression::Test(Test::Type(FileType::RegularFile))));
            assert!(matches!(*b, Expression::Test(Test::Type(FileType::Directory))));
        }
        other => panic!("expected Or expression, got {other:?}"),
    }
}

#[test]
fn test_parse_rejects_invalid_multi_type() {
    let mut parser = Parser::new(args(&["-type", "f,"]));
    assert!(parser.parse().is_err());
}

#[test]
fn test_parse_options_inside_expression() {
    let mut parser = Parser::new(args(&["-name", "*.txt", "-maxdepth", "2"]));
    let result = parser.parse().unwrap();
    assert_eq!(result.global_options.max_depth, Some(2));
    assert!(result.expression.is_some());
}

#[test]
fn test_parse_daystart_applies_to_following_time_tests() {
    let mut parser = Parser::new(args(&["-mtime", "0", "-daystart", "-atime", "0"]));
    let result = parser.parse().unwrap();

    fn collect_daystarts(expr: &Expression, out: &mut Vec<bool>) {
        match expr {
            Expression::Test(Test::Time { daystart, .. }) => out.push(*daystart),
            Expression::Not(e) => collect_daystarts(e, out),
            Expression::And(a, b) | Expression::Or(a, b) | Expression::List(a, b) => {
                collect_daystarts(a, out);
                collect_daystarts(b, out);
            }
            _ => {}
        }
    }

    let mut daystarts = Vec::new();
    collect_daystarts(result.expression.as_ref().unwrap(), &mut daystarts);
    assert_eq!(daystarts, vec![false, true]);
}

#[test]
fn test_parse_used_and_lname() {
    let mut parser = Parser::new(args(&["-used", "+2", "-lname", "*target*"]));
    let result = parser.parse().unwrap();
    assert!(result.expression.is_some());
}

#[test]
fn test_convert_regex_basic_syntax() {
    assert_eq!(convert_regex_syntax(r"\(ab\)\+", RegexSyntax::Basic), "(ab)+");
    assert_eq!(convert_regex_syntax("a+b?", RegexSyntax::Basic), r"a\+b\?");
    assert_eq!(convert_regex_syntax("(x)", RegexSyntax::Basic), r"\(x\)");
    assert_eq!(convert_regex_syntax("(a|b)+", RegexSyntax::Extended), "(a|b)+");
    assert_eq!(convert_regex_syntax(r"a\|b+", RegexSyntax::Emacs), "a|b+");
}

#[test]
fn test_parse_anewer_missing_file_errors() {
    let mut parser = Parser::new(args(&["-anewer", "no_such_file_xyz"]));
    assert!(parser.parse().is_err());
    assert!(matches!(parser.missing_query(), Some(Query::FileTimes(ref f)) if f == "no_such_file_xyz"));
    parser.add_file_times("no_such_file_xyz".to_string(), None);
    parser.restart();
    assert!(parser.parse().is_err());
    assert!(parser.missing_query().is_none());
}
