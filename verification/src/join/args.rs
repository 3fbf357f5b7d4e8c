//! The command line of `join`.
use vstd::prelude::*;
use crate::text::{chars_of, chars_eq_str, str_eq, starts_with_str, is_prefix, parse_usize, parse_int_spec,
    string_of, slice_chars, concat, join3, wrap_chars};
use crate::find::expression::strings_view;
use crate::join::{Config, OutputSpec, output_format_from, parse_output_format};
use crate::text::split_on;

verus! {

/// The settings of `join` as values.
pub struct JoinSettings {
    pub file1: Seq<char>,
    pub file2: Seq<char>,
    pub field1: usize,
    pub field2: usize,
    pub input_separator: Option<char>,
    pub output_separator: Seq<char>,
    pub output_format: Option<Seq<OutputSpec>>,
    pub empty_replacement: Seq<char>,
    pub print_unpaired: Seq<usize>,
    pub only_unpaired: Seq<usize>,
    pub ignore_case: bool,
    pub check_order: bool,
    pub nocheck_order: bool,
    pub header: bool,
    pub zero_terminated: bool,
    pub show_help: bool,
    pub show_version: bool,
}

impl View for Config {
    type V = JoinSettings;

    open spec fn view(&self) -> JoinSettings {
        JoinSettings {
            file1: self.file1@,
            file2: self.file2@,
            field1: self.field1,
            field2: self.field2,
            input_separator: self.input_separator,
            output_separator: self.output_separator@,
            output_format: match self.output_format {
                Some(v) => Some(v@),
                None => None,
            },
            empty_replacement: self.empty_replacement@,
            print_unpaired: self.print_unpaired@,
            only_unpaired: self.only_unpaired@,
            ignore_case: self.ignore_case,
            check_order: self.check_order,
            nocheck_order: self.nocheck_order,
            header: self.header,
            zero_terminated: self.zero_terminated,
            show_help: self.show_help,
            show_version: self.show_version,
        }
    }
}

/// The settings before any argument is read.
pub open spec fn default_settings() -> JoinSettings {
    JoinSettings {
        file1: Seq::empty(),
        file2: Seq::empty(),
        field1: 1,
        field2: 1,
        input_separator: None,
        output_separator: " "@,
        output_format: None,
        empty_replacement: Seq::empty(),
        print_unpaired: Seq::empty(),
        only_unpaired: Seq::empty(),
        ignore_case: false,
        check_order: false,
        nocheck_order: false,
        header: false,
        zero_terminated: false,
        show_help: false,
        show_version: false,
    }
}

/// What one argument (with its value, for the options that take one) does.
pub enum ArgEffect {
    Help,
    Version,
    Field1(usize),
    Field2(usize),
    BothFields(usize),
    Separator(char),
    Format(Seq<OutputSpec>),
    Replacement(Seq<char>),
    Unpaired(usize),
    OnlyUnpaired(usize),
    IgnoreCase,
    ZeroTerminated,
    CheckOrder,
    NoCheckOrder,
    Header,
    Rest,
    Operand(Seq<char>),
    Fail(Seq<char>),
}

/// The same, as the program holds it.
pub enum JoinArg {
    Help,
    Version,
    Field1(usize),
    Field2(usize),
    BothFields(usize),
    Separator(char),
    Format(Vec<OutputSpec>),
    Replacement(String),
    Unpaired(usize),
    OnlyUnpaired(usize),
    IgnoreCase,
    ZeroTerminated,
    CheckOrder,
    NoCheckOrder,
    Header,
    Rest,
    Operand(String),
    Fail(String),
}

impl View for JoinArg {
    type V = ArgEffect;

    open spec fn view(&self) -> ArgEffect {
        match self {
            JoinArg::Help => ArgEffect::Help,
            JoinArg::Version => ArgEffect::Version,
            JoinArg::Field1(n) => ArgEffect::Field1(*n),
            JoinArg::Field2(n) => ArgEffect::Field2(*n),
            JoinArg::BothFields(n) => ArgEffect::BothFields(*n),
            JoinArg::Separator(c) => ArgEffect::Separator(*c),
            JoinArg::Format(v) => ArgEffect::Format(v@),
            JoinArg::Replacement(s) => ArgEffect::Replacement(s@),
            JoinArg::Unpaired(n) => ArgEffect::Unpaired(*n),
            JoinArg::OnlyUnpaired(n) => ArgEffect::OnlyUnpaired(*n),
            JoinArg::IgnoreCase => ArgEffect::IgnoreCase,
            JoinArg::ZeroTerminated => ArgEffect::ZeroTerminated,
            JoinArg::CheckOrder => ArgEffect::CheckOrder,
            JoinArg::NoCheckOrder => ArgEffect::NoCheckOrder,
            JoinArg::Header => ArgEffect::Header,
            JoinArg::Rest => ArgEffect::Rest,
            JoinArg::Operand(s) => ArgEffect::Operand(s@),
            JoinArg::Fail(s) => ArgEffect::Fail(s@),
        }
    }
}

/// The options that take a value, written `-X value` or `-Xvalue`.
pub open spec fn takes_value(opt: char) -> bool {
    opt == '1' || opt == '2' || opt == 't' || opt == 'o' || opt == 'e' || opt == 'a' || opt == 'v'
}

/// The message for an option `-X` given as the last argument.
pub open spec fn missing_value(opt: char) -> Seq<char> {
    if opt == '1' {
        "-1 にはフィールド番号が必要です"@
    } else if opt == '2' {
        "-2 にはフィールド番号が必要です"@
    } else if opt == 'j' {
        "-j にはフィールド番号が必要です"@
    } else if opt == 't' {
        "-t にはセパレータが必要です"@
    } else if opt == 'o' {
        "-o には出力フォーマットが必要です"@
    } else if opt == 'e' {
        "-e には置換文字列が必要です"@
    } else if opt == 'a' {
        "-a にはファイル番号が必要です"@
    } else {
        "-v にはファイル番号が必要です"@
    }
}

/// A field number, or its error.
pub open spec fn field_value(v: Seq<char>) -> Result<usize, Seq<char>> {
    match parse_int_spec(v, 0, usize::MAX as int) {
        Some(n) => Ok(n as usize),
        None => Err("無効なフィールド番号: '"@ + v + "'"@),
    }
}

/// A file number for `-a` or `-v`, or its error.
pub open spec fn file_value(v: Seq<char>, only: bool) -> Result<usize, Seq<char>> {
    match parse_int_spec(v, 0, usize::MAX as int) {
        Some(n) => if n == 1 || n == 2 {
            Ok(n as usize)
        } else if only {
            Err("-v のファイル番号は1または2"@)
        } else {
            Err("-a のファイル番号は1または2"@)
        },
        None => Err("無効なファイル番号: '"@ + v + "'"@),
    }
}

/// What option `-X` does with the value `v`.
pub open spec fn value_effect(opt: char, v: Seq<char>) -> ArgEffect {
    if opt == '1' || opt == '2' || opt == 'j' {
        match field_value(v) {
            Ok(n) => if opt == '1' {
                ArgEffect::Field1(n)
            } else if opt == '2' {
                ArgEffect::Field2(n)
            } else {
                ArgEffect::BothFields(n)
            },
            Err(e) => ArgEffect::Fail(e),
        }
    } else if opt == 't' {
        if v.len() == 0 {
            ArgEffect::Fail("セパレータは空にできません"@)
        } else {
            ArgEffect::Separator(v[0])
        }
    } else if opt == 'o' {
        match output_format_from(split_on(v, ','), 0, Seq::empty()) {
            Ok(specs) => ArgEffect::Format(specs),
            Err(e) => ArgEffect::Fail(e),
        }
    } else if opt == 'e' {
        ArgEffect::Replacement(v)
    } else {
        match file_value(v, opt == 'v') {
            Ok(n) => if opt == 'v' {
                ArgEffect::OnlyUnpaired(n)
            } else {
                ArgEffect::Unpaired(n)
            },
            Err(e) => ArgEffect::Fail(e),
        }
    }
}

/// What the argument at `i` means, and where the next one starts: an
/// option that takes a value reads it from the same argument (`-Xvalue`)
/// or the next (`-X value`; `-j` only so).
pub open spec fn join_arg(args: Seq<Seq<char>>, i: int) -> (ArgEffect, int) {
    let a = args[i];
    if a == "--help"@ {
        (ArgEffect::Help, i + 1)
    } else if a == "--version"@ {
        (ArgEffect::Version, i + 1)
    } else if a.len() >= 2 && a[0] == '-' && (takes_value(a[1]) || (a[1] == 'j' && a.len() == 2)) {
        if a.len() == 2 {
            if i + 1 < args.len() {
                (value_effect(a[1], args[i + 1]), i + 2)
            } else {
                (ArgEffect::Fail(missing_value(a[1])), i + 1)
            }
        } else {
            (value_effect(a[1], a.skip(2)), i + 1)
        }
    } else if a == "-i"@ || a == "--ignore-case"@ {
        (ArgEffect::IgnoreCase, i + 1)
    } else if a == "-z"@ || a == "--zero-terminated"@ {
        (ArgEffect::ZeroTerminated, i + 1)
    } else if a == "--check-order"@ {
        (ArgEffect::CheckOrder, i + 1)
    } else if a == "--nocheck-order"@ {
        (ArgEffect::NoCheckOrder, i + 1)
    } else if a == "--header"@ {
        (ArgEffect::Header, i + 1)
    } else if a == "--"@ {
        (ArgEffect::Rest, i + 1)
    } else if a.len() > 0 && a[0] == '-' && a != "-"@ {
        (ArgEffect::Fail("不明なオプション: "@ + a), i + 1)
    } else {
        (ArgEffect::Operand(a), i + 1)
    }
}

/// The settings after one effect that changes them.
pub open spec fn apply_effect(c: JoinSettings, e: ArgEffect) -> JoinSettings {
    match e {
        ArgEffect::Field1(n) => JoinSettings { field1: n, ..c },
        ArgEffect::Field2(n) => JoinSettings { field2: n, ..c },
        ArgEffect::BothFields(n) => JoinSettings { field1: n, field2: n, ..c },
        ArgEffect::Separator(s) => JoinSettings { input_separator: Some(s), output_separator: seq![s], ..c },
        ArgEffect::Format(specs) => if specs.len() > 0 {
            JoinSettings { output_format: Some(specs), ..c }
        } else {
            c
        },
        ArgEffect::Replacement(v) => JoinSettings { empty_replacement: v, ..c },
        ArgEffect::Unpaired(n) => if c.print_unpaired.contains(n) {
            c
        } else {
            JoinSettings { print_unpaired: c.print_unpaired.push(n), ..c }
        },
        ArgEffect::OnlyUnpaired(n) => if c.only_unpaired.contains(n) {
            c
        } else {
            JoinSettings { only_unpaired: c.only_unpaired.push(n), ..c }
        },
        ArgEffect::IgnoreCase => JoinSettings { ignore_case: true, ..c },
        ArgEffect::ZeroTerminated => JoinSettings { zero_terminated: true, ..c },
        ArgEffect::CheckOrder => JoinSettings { check_order: true, ..c },
        ArgEffect::NoCheckOrder => JoinSettings { nocheck_order: true, ..c },
        ArgEffect::Header => JoinSettings { header: true, ..c },
        _ => c,
    }
}

/// Reading the arguments from `i` on, with the settings `c` and the
/// operands `ops` so far: the settings and all operands, or the first
/// error. `--help` and `--version` stop the reading.
pub open spec fn settings_from(args: Seq<Seq<char>>, i: int, c: JoinSettings, ops: Seq<Seq<char>>) -> Result<(JoinSettings, Seq<Seq<char>>), Seq<char>>
    decreases args.len() - i,
{
    if i < 0 || i >= args.len() {
        Ok((c, ops))
    } else {
        let (e, next) = join_arg(args, i);
        match e {
            ArgEffect::Help => Ok((JoinSettings { show_help: true, ..c }, ops)),
            ArgEffect::Version => Ok((JoinSettings { show_version: true, ..c }, ops)),
            ArgEffect::Fail(m) => Err(m),
            ArgEffect::Rest => Ok((c, ops + args.skip(i + 1))),
            ArgEffect::Operand(a) => settings_from(args, i + 1, c, ops.push(a)),
            _ => if next > i {
                settings_from(args, next, apply_effect(c, e), ops)
            } else {
                Ok((c, ops))
            },
        }
    }
}

/// What the command line of `join` gives: the settings with the two files,
/// or the message of the first error; with `--help` or `--version` the
/// settings read so far.
pub open spec fn join_args_spec(args: Seq<Seq<char>>) -> Result<JoinSettings, Seq<char>> {
    match settings_from(args, 0, default_settings(), Seq::empty()) {
        Err(m) => Err(m),
        Ok((c, ops)) => if c.show_help || c.show_version {
            Ok(c)
        } else if ops.len() < 2 {
            Err("結合する2つのファイルを指定してください"@)
        } else if ops.len() > 2 {
            Err("引数が多すぎます"@)
        } else {
            Ok(JoinSettings { file1: ops[0], file2: ops[1], ..c })
        },
    }
}


fn takes_value_exec(opt: char) -> (r: bool)
    ensures
        r == takes_value(opt),
{
    opt == '1' || opt == '2' || opt == 't' || opt == 'o' || opt == 'e' || opt == 'a' || opt == 'v'
}

fn missing_value_exec(opt: char) -> (r: String)
    ensures
        r@ == missing_value(opt),
{
    if opt == '1' {
        String::from_str("-1 にはフィールド番号が必要です")
    } else if opt == '2' {
        String::from_str("-2 にはフィールド番号が必要です")
    } else if opt == 'j' {
        String::from_str("-j にはフィールド番号が必要です")
    } else if opt == 't' {
        String::from_str("-t にはセパレータが必要です")
    } else if opt == 'o' {
        String::from_str("-o には出力フォーマットが必要です")
    } else if opt == 'e' {
        String::from_str("-e には置換文字列が必要です")
    } else if opt == 'a' {
        String::from_str("-a にはファイル番号が必要です")
    } else {
        String::from_str("-v にはファイル番号が必要です")
    }
}

/// What option `-X` does with the value `v`.
fn value_effect_exec(opt: char, v: &str) -> (r: JoinArg)
    ensures
        r@ == value_effect(opt, v@),
{
    let cs = chars_of(v);
    if opt == '1' || opt == '2' || opt == 'j' {
        match parse_usize(&cs) {
            Some(n) => if opt == '1' {
                JoinArg::Field1(n)
            } else if opt == '2' {
                JoinArg::Field2(n)
            } else {
                JoinArg::BothFields(n)
            },
            None => JoinArg::Fail(wrap_chars("無効なフィールド番号: '", &cs, "'")),
        }
    } else if opt == 't' {
        if cs.len() == 0 {
            JoinArg::Fail(String::from_str("セパレータは空にできません"))
        } else {
            JoinArg::Separator(cs[0])
        }
    } else if opt == 'o' {
        match parse_output_format(v) {
            Ok(specs) => JoinArg::Format(specs),
            Err(e) => JoinArg::Fail(e),
        }
    } else if opt == 'e' {
        JoinArg::Replacement(string_of(&cs))
    } else {
        match parse_usize(&cs) {
            Some(n) => if n == 1 || n == 2 {
                if opt == 'v' {
                    JoinArg::OnlyUnpaired(n)
                } else {
                    JoinArg::Unpaired(n)
                }
            } else if opt == 'v' {
                JoinArg::Fail(String::from_str("-v のファイル番号は1または2"))
            } else {
                JoinArg::Fail(String::from_str("-a のファイル番号は1または2"))
            },
            None => JoinArg::Fail(wrap_chars("無効なファイル番号: '", &cs, "'")),
        }
    }
}

/// What the argument at `i` means, and where the next one starts.
fn join_arg_exec(args: &[String], i: usize) -> (r: (JoinArg, usize))
    requires
        i < args.len(),
    ensures
        r.0@ == join_arg(strings_view(args@), i as int).0,
        r.1 as int == join_arg(strings_view(args@), i as int).1,
{
    let ghost sv = strings_view(args@);
    let a = chars_of(args[i].as_str());
    assert(a@ == sv[i as int]);
    if chars_eq_str(&a, "--help") {
        (JoinArg::Help, i + 1)
    } else if chars_eq_str(&a, "--version") {
        (JoinArg::Version, i + 1)
    } else if a.len() >= 2 && a[0] == '-' && (takes_value_exec(a[1]) || (a[1] == 'j' && a.len() == 2)) {
        if a.len() == 2 {
            if i + 1 < args.len() {
                assert(sv[i + 1] == args@[i + 1]@);
                (value_effect_exec(a[1], args[i + 1].as_str()), i + 2)
            } else {
                (JoinArg::Fail(missing_value_exec(a[1])), i + 1)
            }
        } else {
            let rest = slice_chars(&a, 2, a.len());
            assert(rest@ == a@.skip(2));
            let rs = string_of(&rest);
            (value_effect_exec(a[1], rs.as_str()), i + 1)
        }
    } else if chars_eq_str(&a, "-i") || chars_eq_str(&a, "--ignore-case") {
        (JoinArg::IgnoreCase, i + 1)
    } else if chars_eq_str(&a, "-z") || chars_eq_str(&a, "--zero-terminated") {
        (JoinArg::ZeroTerminated, i + 1)
    } else if chars_eq_str(&a, "--check-order") {
        (JoinArg::CheckOrder, i + 1)
    } else if chars_eq_str(&a, "--nocheck-order") {
        (JoinArg::NoCheckOrder, i + 1)
    } else if chars_eq_str(&a, "--header") {
        (JoinArg::Header, i + 1)
    } else if chars_eq_str(&a, "--") {
        (JoinArg::Rest, i + 1)
    } else if a.len() > 0 && a[0] == '-' && !chars_eq_str(&a, "-") {
        (JoinArg::Fail(concat("不明なオプション: ", args[i].as_str())), i + 1)
    } else {
        (JoinArg::Operand(args[i].clone()), i + 1)
    }
}

/// Applies an effect that changes the settings.
fn apply_effect_exec(config: &mut Config, e: JoinArg)
    ensures
        final(config)@ == apply_effect(old(config)@, e@),
{
    match e {
        JoinArg::Field1(n) => config.field1 = n,
        JoinArg::Field2(n) => config.field2 = n,
        JoinArg::BothFields(n) => {
            config.field1 = n;
            config.field2 = n;
        },
        JoinArg::Separator(s) => {
            config.input_separator = Some(s);
            let mut o = String::new();
            crate::text::push_char(&mut o, s);
            config.output_separator = o;
        },
        JoinArg::Format(specs) => {
            if specs.len() > 0 {
                config.output_format = Some(specs);
            }
        },
        JoinArg::Replacement(v) => config.empty_replacement = v,
        JoinArg::Unpaired(n) => {
            if !super::holds(&config.print_unpaired, n) {
                config.print_unpaired.push(n);
            }
        },
        JoinArg::OnlyUnpaired(n) => {
            if !super::holds(&config.only_unpaired, n) {
                config.only_unpaired.push(n);
            }
        },
        JoinArg::IgnoreCase => config.ignore_case = true,
        JoinArg::ZeroTerminated => config.zero_terminated = true,
        JoinArg::CheckOrder => config.check_order = true,
        JoinArg::NoCheckOrder => config.nocheck_order = true,
        JoinArg::Header => config.header = true,
        _ => {},
    }
}

/// Appends the arguments from `from` on to the operands.
pub(crate) fn push_rest(ops: &mut Vec<String>, args: &[String], from: usize)
    requires
        from <= args.len(),
    ensures
        strings_view(final(ops)@) == strings_view(old(ops)@) + strings_view(args@).skip(from as int),
{
    let ghost start = strings_view(ops@);
    let ghost sv = strings_view(args@);
    let mut j = from;
    proof {
        assert(sv.subrange(from as int, from as int) =~= Seq::<Seq<char>>::empty());
        assert(start + sv.subrange(from as int, from as int) =~= start);
    }
    while j < args.len()
        invariant
            from <= j <= args.len(),
            sv == strings_view(args@),
            strings_view(ops@) == start + sv.subrange(from as int, j as int),
        decreases args.len() - j,
    {
        let ghost before = strings_view(ops@);
        ops.push(args[j].clone());
        proof {
            assert(strings_view(ops@) =~= before.push(sv[j as int]));
            assert(sv.subrange(from as int, j + 1) =~= sv.subrange(from as int, j as int).push(sv[j as int]));
            assert(strings_view(ops@) =~= start + sv.subrange(from as int, j + 1));
        }
        j += 1;
    }
    proof {
        assert(sv.subrange(from as int, args.len() as int) =~= sv.skip(from as int));
    }
}

/// Reads the command line of `join` (without the program name): the
/// settings with the two files, or the message of the first error, as
/// `join_args_spec` says. With `--help` or `--version` the reading stops
/// there and the settings say so.
pub fn parse_args_from(args: &[String]) -> (r: Result<Config, String>)
    ensures
        match join_args_spec(strings_view(args@)) {
            Ok(c) => r is Ok && r->Ok_0@ == c,
            Err(m) => r is Err && r->Err_0@ == m,
        },
{
    let ghost sv = strings_view(args@);
    let mut config = Config::default();
    let mut ops: Vec<String> = Vec::new();
    let mut i: usize = 0;
    proof {
        assert(config@ == default_settings());
        assert(strings_view(ops@) =~= Seq::<Seq<char>>::empty());
    }
    while i < args.len()
        invariant
            i <= args.len(),
            sv == strings_view(args@),
            settings_from(sv, 0, default_settings(), Seq::empty()) == settings_from(sv, i as int, config@, strings_view(ops@)),
        decreases args.len() - i,
    {
        let (e, next) = join_arg_exec(args, i);
        match e {
            JoinArg::Help => {
                config.show_help = true;
                return Ok(config);
            },
            JoinArg::Version => {
                config.show_version = true;
                return Ok(config);
            },
            JoinArg::Fail(m) => {
                return Err(m);
            },
            JoinArg::Rest => {
                push_rest(&mut ops, args, i + 1);
                i = args.len();
            },
            JoinArg::Operand(a) => {
                let ghost before = strings_view(ops@);
                ops.push(a);
                proof {
                    assert(strings_view(ops@) =~= before.push(sv[i as int]));
                }
                i = i + 1;
            },
            other => {
                apply_effect_exec(&mut config, other);
                i = next;
            },
        }
    }
    if config.show_help || config.show_version {
        return Ok(config);
    }
    if ops.len() < 2 {
        return Err(String::from_str("結合する2つのファイルを指定してください"));
    }
    if ops.len() > 2 {
        return Err(String::from_str("引数が多すぎます"));
    }
    config.file1 = ops[0].clone();
    config.file2 = ops[1].clone();
    Ok(config)
}

} // verus!
