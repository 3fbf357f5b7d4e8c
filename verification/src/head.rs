//! The library side of `head`: its command line, the counts it reads, and
//! the part of the input it prints.
use vstd::prelude::*;
use crate::text::{chars_of, string_of, slice_chars, push_char, chars_eq_str, starts_with_str, ends_with_str,
    is_prefix, is_suffix, parse_i64, parse_int_spec, wrap_chars, concat, uppercase_of, to_uppercase, split_on,
    push_pieces, first_index_of, find_char, lemma_first_index_of, pieces_from};
use crate::find::expression::strings_view;

verus! {

/// The settings of `head`.
#[derive(Debug, Clone, Copy, PartialEq, Eq, Structural)]
pub struct Options {
    pub lines: Option<isize>,
    pub bytes: Option<isize>,
    pub quiet: bool,
    pub verbose: bool,
    pub zero_terminated: bool,
    pub show_help: bool,
    pub show_version: bool,
}

pub open spec fn default_head_options() -> Options {
    Options { lines: None, bytes: None, quiet: false, verbose: false, zero_terminated: false, show_help: false, show_version: false }
}

/// What reading a count, or the command line, comes to: a value, an
/// error, or a product out of range, on which `head` stops.
pub enum Parsed<T> {
    Value(T),
    Failed(Seq<char>),
    Aborts,
}

/// A line count (`[-]NUM`), or its error.
pub open spec fn number_spec(s: Seq<char>) -> Parsed<isize> {
    match parse_int_spec(s, isize::MIN as int, isize::MAX as int) {
        Some(n) => Parsed::Value(n as isize),
        None => Parsed::Failed("不正な行数: '"@ + s + "'"@),
    }
}

/// The multiplier of a byte count's suffix (after upper-casing) and the
/// length of the suffix.
pub open spec fn size_suffix(u: Seq<char>) -> (int, int) {
    if is_suffix("KB"@, u) {
        (1000, 2)
    } else if is_suffix("MB"@, u) {
        (1000000int, 2)
    } else if is_suffix("GB"@, u) {
        (1000000000int, 2)
    } else if is_suffix("K"@, u) {
        (1024, 1)
    } else if is_suffix("M"@, u) {
        (1048576int, 1)
    } else if is_suffix("G"@, u) {
        (1073741824int, 1)
    } else if is_suffix("B"@, u) {
        (512, 1)
    } else {
        (1, 0)
    }
}

/// A byte count (`[-]NUM[suffix]`, the suffix read after upper-casing),
/// or its error.
pub open spec fn size_spec(s: Seq<char>) -> Parsed<isize> {
    let negative = s.len() > 0 && s[0] == '-';
    let t = if negative { s.skip(1) } else { s };
    let u = uppercase_of(t);
    let (mult, cut) = size_suffix(u);
    match parse_int_spec(u.take(u.len() - cut), isize::MIN as int, isize::MAX as int) {
        None => Parsed::Failed("不正なバイト数: '"@ + t + "'"@),
        Some(num) => {
            let product = num * mult;
            let value = if negative { -product } else { product };
            if product < isize::MIN || product > isize::MAX || value < isize::MIN || value > isize::MAX {
                Parsed::Aborts
            } else {
                Parsed::Value(value as isize)
            }
        },
    }
}

/// A line count.
pub fn parse_number(s: &str) -> (r: Result<isize, String>)
    ensures
        match number_spec(s@) {
            Parsed::Value(n) => r == Ok::<isize, String>(n),
            Parsed::Failed(e) => r is Err && r->Err_0@ == e,
            Parsed::Aborts => false,
        },
{
    let v = chars_of(s);
    match parse_i64(&v) {
        Some(n) => {
            if n >= isize::MIN as i64 && n <= isize::MAX as i64 {
                Ok(n as isize)
            } else {
                Err(wrap_chars("不正な行数: '", &v, "'"))
            }
        },
        None => Err(wrap_chars("不正な行数: '", &v, "'")),
    }
}

/// A byte count; `None` where the count is out of range and `head`
/// stops.
pub fn parse_size(s: &str) -> (r: Option<Result<isize, String>>)
    ensures
        match size_spec(s@) {
            Parsed::Value(n) => r == Some(Ok::<isize, String>(n)),
            Parsed::Failed(e) => r is Some && r->Some_0 is Err && r->Some_0->Err_0@ == e,
            Parsed::Aborts => r is None,
        },
{
    let v = chars_of(s);
    let negative = v.len() > 0 && v[0] == '-';
    let t = if negative { slice_chars(&v, 1, v.len()) } else { slice_chars(&v, 0, v.len()) };
    proof {
        assert(t@ =~= (if negative { s@.skip(1) } else { s@ }));
    }
    let ts = string_of(&t);
    let u = chars_of(to_uppercase(ts.as_str()).as_str());
    let (mult, cut): (i64, usize) = if ends_with_str(&u, "KB") {
        (1000, 2)
    } else if ends_with_str(&u, "MB") {
        (1000000, 2)
    } else if ends_with_str(&u, "GB") {
        (1000000000, 2)
    } else if ends_with_str(&u, "K") {
        (1024, 1)
    } else if ends_with_str(&u, "M") {
        (1048576, 1)
    } else if ends_with_str(&u, "G") {
        (1073741824, 1)
    } else if ends_with_str(&u, "B") {
        (512, 1)
    } else {
        (1, 0)
    };
    proof {
        reveal_strlit("KB");
        reveal_strlit("MB");
        reveal_strlit("GB");
        reveal_strlit("K");
        reveal_strlit("M");
        reveal_strlit("G");
        reveal_strlit("B");
        assert(size_suffix(u@) == (mult as int, cut as int));
    }
    let num_part = slice_chars(&u, 0, u.len() - cut);
    proof {
        assert(num_part@ =~= u@.take(u@.len() - cut));
    }
    let num = match parse_i64(&num_part) {
        Some(n) => {
            if n >= isize::MIN as i64 && n <= isize::MAX as i64 {
                n
            } else {
                return Some(Err(wrap_chars("不正なバイト数: '", &t, "'")));
            }
        },
        None => return Some(Err(wrap_chars("不正なバイト数: '", &t, "'"))),
    };
    assert(1 <= mult <= 1073741824);
    assert(-0x8000_0000_0000_0000 * 1073741824 <= (num as int) * (mult as int) <= 0x7FFF_FFFF_FFFF_FFFF * 1073741824) by (nonlinear_arith)
        requires
            -0x8000_0000_0000_0000 <= num <= 0x7FFF_FFFF_FFFF_FFFF,
            1 <= mult <= 1073741824,
    ;
    let product = (num as i128) * (mult as i128);
    let value = if negative { -product } else { product };
    if product < isize::MIN as i128 || product > isize::MAX as i128 || value < isize::MIN as i128 || value > isize::MAX as i128 {
        return None;
    }
    Some(Ok(value as isize))
}

/// The value of a long option: after `=`, or the next argument.
pub open spec fn long_value(args: Seq<Seq<char>>, i: int, value: Option<Seq<char>>, name: Seq<char>) -> Result<(Seq<char>, int), Seq<char>> {
    match value {
        Some(v) => Ok((v, i)),
        None => if i + 1 < args.len() {
            Ok((args[i + 1], i + 1))
        } else {
            Err("オプション '"@ + name + "' には引数が必要です"@)
        },
    }
}

/// What a long option does: the settings and the last argument it read.
pub open spec fn long_option_spec(args: Seq<Seq<char>>, i: int, o: Options) -> Parsed<(Options, int)> {
    let opt = args[i].skip(2);
    let (name, value) = match first_index_of(opt, '=') {
        Some(p) => (opt.take(p), Some(opt.skip(p + 1))),
        None => (opt, None),
    };
    if name == "lines"@ {
        match long_value(args, i, value, "--lines"@) {
            Err(e) => Parsed::Failed(e),
            Ok((v, last)) => match number_spec(v) {
                Parsed::Value(n) => Parsed::Value((Options { lines: Some(n), ..o }, last)),
                Parsed::Failed(e) => Parsed::Failed(e),
                Parsed::Aborts => Parsed::Aborts,
            },
        }
    } else if name == "bytes"@ {
        match long_value(args, i, value, "--bytes"@) {
            Err(e) => Parsed::Failed(e),
            Ok((v, last)) => match size_spec(v) {
                Parsed::Value(n) => Parsed::Value((Options { bytes: Some(n), ..o }, last)),
                Parsed::Failed(e) => Parsed::Failed(e),
                Parsed::Aborts => Parsed::Aborts,
            },
        }
    } else if name == "quiet"@ || name == "silent"@ {
        Parsed::Value((Options { quiet: true, ..o }, i))
    } else if name == "verbose"@ {
        Parsed::Value((Options { verbose: true, ..o }, i))
    } else if name == "zero-terminated"@ {
        Parsed::Value((Options { zero_terminated: true, ..o }, i))
    } else if name == "help"@ {
        Parsed::Value((Options { show_help: true, ..o }, i))
    } else if name == "version"@ {
        Parsed::Value((Options { show_version: true, ..o }, i))
    } else {
        Parsed::Failed("不明なオプション: '--"@ + name + "'"@)
    }
}

/// A cluster of short options `chars[j..]` of the argument at `i`: the
/// settings and the last argument read.
pub open spec fn short_options_spec(args: Seq<Seq<char>>, i: int, chars: Seq<char>, j: int, o: Options) -> Parsed<(Options, int)>
    decreases chars.len() - j,
{
    if j < 0 || j >= chars.len() {
        Parsed::Value((o, i))
    } else {
        let c = chars[j];
        if c == 'n' || c == 'c' {
            let got: Result<(Seq<char>, int), Seq<char>> = if j + 1 < chars.len() {
                Ok((chars.skip(j + 1), i))
            } else if i + 1 < args.len() {
                Ok((args[i + 1], i + 1))
            } else {
                Err("オプション '-"@ + seq![c] + "' には引数が必要です"@)
            };
            match got {
                Err(e) => Parsed::Failed(e),
                Ok((v, last)) => match (if c == 'n' { number_spec(v) } else { size_spec(v) }) {
                    Parsed::Value(n) => Parsed::Value((if c == 'n' { Options { lines: Some(n), ..o } } else { Options { bytes: Some(n), ..o } }, last)),
                    Parsed::Failed(e) => Parsed::Failed(e),
                    Parsed::Aborts => Parsed::Aborts,
                },
            }
        } else if c == 'q' {
            short_options_spec(args, i, chars, j + 1, Options { quiet: true, ..o })
        } else if c == 'v' {
            short_options_spec(args, i, chars, j + 1, Options { verbose: true, ..o })
        } else if c == 'z' {
            short_options_spec(args, i, chars, j + 1, Options { zero_terminated: true, ..o })
        } else {
            Parsed::Failed("不正なオプション: '-"@ + seq![c] + "'"@)
        }
    }
}

pub open spec fn all_ascii_digits(s: Seq<char>) -> bool {
    forall|k: int| 0 <= k < s.len() ==> '0' <= #[trigger] s[k] <= '9'
}

/// What the argument at `i` does: the settings and the last argument it
/// read, with the operand it is; `None` for `--`.
pub open spec fn head_arg(args: Seq<Seq<char>>, i: int, o: Options) -> Parsed<Option<(Options, int, Option<Seq<char>>)>> {
    let a = args[i];
    if a == "--"@ {
        Parsed::Value(None)
    } else if is_prefix("--"@, a) {
        match long_option_spec(args, i, o) {
            Parsed::Value((o2, last)) => Parsed::Value(Some((o2, last, None))),
            Parsed::Failed(e) => Parsed::Failed(e),
            Parsed::Aborts => Parsed::Aborts,
        }
    } else if a.len() > 1 && a[0] == '-' {
        let after = a.skip(1);
        if all_ascii_digits(after) {
            let n = match parse_int_spec(after, isize::MIN as int, isize::MAX as int) {
                Some(n) => n as isize,
                None => 10isize,
            };
            Parsed::Value(Some((Options { lines: Some(n), ..o }, i, None)))
        } else {
            match short_options_spec(args, i, after, 0, o) {
                Parsed::Value((o2, last)) => Parsed::Value(Some((o2, last, None))),
                Parsed::Failed(e) => Parsed::Failed(e),
                Parsed::Aborts => Parsed::Aborts,
            }
        }
    } else {
        Parsed::Value(Some((o, i, Some(a))))
    }
}

pub proof fn lemma_short_last(args: Seq<Seq<char>>, i: int, chars: Seq<char>, j: int, o: Options)
    ensures
        match short_options_spec(args, i, chars, j, o) {
            Parsed::Value((_, last)) => i <= last <= i + 1 && (last == i + 1 ==> i + 1 < args.len()),
            _ => true,
        },
    decreases chars.len() - j,
{
    if 0 <= j < chars.len() {
        let c = chars[j];
        if c == 'q' {
            lemma_short_last(args, i, chars, j + 1, Options { quiet: true, ..o });
        } else if c == 'v' {
            lemma_short_last(args, i, chars, j + 1, Options { verbose: true, ..o });
        } else if c == 'z' {
            lemma_short_last(args, i, chars, j + 1, Options { zero_terminated: true, ..o });
        }
    }
}

pub proof fn lemma_head_arg_last(args: Seq<Seq<char>>, i: int, o: Options)
    requires
        0 <= i < args.len(),
    ensures
        match head_arg(args, i, o) {
            Parsed::Value(Some((_, last, _))) => i <= last < args.len(),
            _ => true,
        },
{
    let a = args[i];
    if a.len() > 1 && a[0] == '-' && !is_prefix("--"@, a) && !all_ascii_digits(a.skip(1)) {
        lemma_short_last(args, i, a.skip(1), 0, o);
    }
}

/// The settings and operands from the argument at `i` on.
pub open spec fn head_args_from(args: Seq<Seq<char>>, i: int, o: Options, files: Seq<Seq<char>>) -> Parsed<(Options, Seq<Seq<char>>)>
    decreases args.len() - i,
{
    if i < 0 || i >= args.len() {
        Parsed::Value((o, files))
    } else {
        proof {
            lemma_head_arg_last(args, i, o);
        }
        match head_arg(args, i, o) {
            Parsed::Value(None) => Parsed::Value((o, files + args.skip(i + 1))),
            Parsed::Value(Some((o2, last, file))) => head_args_from(args, last + 1, o2, match file {
                Some(f) => files.push(f),
                None => files,
            }),
            Parsed::Failed(e) => Parsed::Failed(e),
            Parsed::Aborts => Parsed::Aborts,
        }
    }
}

/// What the command line of `head` gives (the program name first), before
/// the operands are expanded as patterns.
pub open spec fn head_args_spec(args: Seq<Seq<char>>) -> Parsed<(Options, Seq<Seq<char>>)> {
    head_args_from(args, 1, default_head_options(), Seq::empty())
}

/// The value of `-n` or `-c` in a cluster: the rest of it, or the next
/// argument.
fn short_value(args: &[String], i: usize, chars: &Vec<char>, j: usize) -> (r: Result<(String, usize), String>)
    requires
        i < args.len(),
        j < chars.len(),
    ensures
        ({
            let c = chars@[j as int];
            let want: Result<(Seq<char>, int), Seq<char>> = if j + 1 < chars.len() {
                Ok((chars@.skip(j + 1), i as int))
            } else if i + 1 < args.len() {
                Ok((strings_view(args@)[i + 1], i + 1))
            } else {
                Err("オプション '-"@ + seq![c] + "' には引数が必要です"@)
            };
            match want {
                Ok((v, last)) => r is Ok && r->Ok_0.0@ == v && r->Ok_0.1 as int == last,
                Err(e) => r is Err && r->Err_0@ == e,
            }
        }),
{
    if j + 1 < chars.len() {
        let rest = slice_chars(chars, j + 1, chars.len());
        proof {
            assert(rest@ =~= chars@.skip(j + 1));
        }
        Ok((string_of(&rest), i))
    } else if i + 1 < args.len() {
        Ok((args[i + 1].clone(), i + 1))
    } else {
        let mut m = String::from_str("オプション '-");
        push_char(&mut m, chars[j]);
        m.append("' には引数が必要です");
        Err(m)
    }
}

/// A cluster of short options.
fn short_options_exec(args: &[String], i: usize, chars: &Vec<char>, start: Options) -> (r: Option<Result<(Options, usize), String>>)
    requires
        i < args.len(),
    ensures
        match short_options_spec(strings_view(args@), i as int, chars@, 0, start) {
            Parsed::Value((o, last)) => r == Some(Ok::<(Options, usize), String>((o, last as usize))),
            Parsed::Failed(e) => r is Some && r->Some_0 is Err && r->Some_0->Err_0@ == e,
            Parsed::Aborts => r is None,
        },
{
    let ghost sa = strings_view(args@);
    let mut o = start;
    let mut j: usize = 0;
    while j < chars.len()
        invariant
            j <= chars.len(),
            i < args.len(),
            sa == strings_view(args@),
            short_options_spec(sa, i as int, chars@, 0, start) == short_options_spec(sa, i as int, chars@, j as int, o),
        decreases chars.len() - j,
    {
        let c = chars[j];
        if c == 'n' || c == 'c' {
            let (v, last) = match short_value(args, i, chars, j) {
                Ok(x) => x,
                Err(e) => return Some(Err(e)),
            };
            if c == 'n' {
                return match parse_number(v.as_str()) {
                    Ok(n) => Some(Ok((Options { lines: Some(n), ..o }, last))),
                    Err(e) => Some(Err(e)),
                };
            } else {
                return match parse_size(v.as_str()) {
                    Some(Ok(n)) => Some(Ok((Options { bytes: Some(n), ..o }, last))),
                    Some(Err(e)) => Some(Err(e)),
                    None => None,
                };
            }
        } else if c == 'q' {
            o = Options { quiet: true, ..o };
        } else if c == 'v' {
            o = Options { verbose: true, ..o };
        } else if c == 'z' {
            o = Options { zero_terminated: true, ..o };
        } else {
            let mut m = String::from_str("不正なオプション: '-");
            push_char(&mut m, c);
            m.append("'");
            return Some(Err(m));
        }
        j += 1;
    }
    Some(Ok((o, i)))
}

/// A long option.
fn long_option_exec(args: &[String], i: usize, o: Options) -> (r: Option<Result<(Options, usize), String>>)
    requires
        i < args.len(),
        is_prefix("--"@, args@[i as int]@),
    ensures
        match long_option_spec(strings_view(args@), i as int, o) {
            Parsed::Value((o2, last)) => r == Some(Ok::<(Options, usize), String>((o2, last as usize))),
            Parsed::Failed(e) => r is Some && r->Some_0 is Err && r->Some_0->Err_0@ == e,
            Parsed::Aborts => r is None,
        },
{
    let ghost sa = strings_view(args@);
    let a = chars_of(args[i].as_str());
    assert(a@ == sa[i as int]);
    proof {
        reveal_strlit("--");
    }
    let opt = slice_chars(&a, 2, a.len());
    proof {
        assert(opt@ =~= a@.skip(2));
    }
    let (name, value) = match find_char(&opt, '=') {
        Some(p) => {
            proof {
                lemma_first_index_of(opt@, '=', p as int);
                assert(opt@.subrange(0, p as int) =~= opt@.take(p as int));
                assert(opt@.subrange(p + 1, opt@.len() as int) =~= opt@.skip(p + 1));
            }
            (slice_chars(&opt, 0, p), Some(slice_chars(&opt, p + 1, opt.len())))
        },
        None => {
            proof {
                if first_index_of(opt@, '=') is Some {
                    let k = choose|k: int| 0 <= k < opt@.len() && opt@[k] == '=' && forall|j: int| 0 <= j < k ==> opt@[j] != '=';
                    assert(opt@[k] == '=');
                }
            }
            (slice_chars(&opt, 0, opt.len()), None)
        },
    };
    proof {
        assert(name@ == (match first_index_of(opt@, '=') {
            Some(p) => opt@.take(p),
            None => opt@,
        })) by {
            if first_index_of(opt@, '=') is None {
                assert(name@ =~= opt@);
            }
        }
    }
    let lines = chars_eq_str(&name, "lines");
    let bytes = chars_eq_str(&name, "bytes");
    if lines || bytes {
        let (v, last): (String, usize) = match value {
            Some(v) => (string_of(&v), i),
            None => {
                if i + 1 < args.len() {
                    (args[i + 1].clone(), i + 1)
                } else if lines {
                    return Some(Err(crate::text::join3("オプション '", "--lines", "' には引数が必要です")));
                } else {
                    return Some(Err(crate::text::join3("オプション '", "--bytes", "' には引数が必要です")));
                }
            },
        };
        if lines {
            match parse_number(v.as_str()) {
                Ok(n) => Some(Ok((Options { lines: Some(n), ..o }, last))),
                Err(e) => Some(Err(e)),
            }
        } else {
            match parse_size(v.as_str()) {
                Some(Ok(n)) => Some(Ok((Options { bytes: Some(n), ..o }, last))),
                Some(Err(e)) => Some(Err(e)),
                None => None,
            }
        }
    } else if chars_eq_str(&name, "quiet") || chars_eq_str(&name, "silent") {
        Some(Ok((Options { quiet: true, ..o }, i)))
    } else if chars_eq_str(&name, "verbose") {
        Some(Ok((Options { verbose: true, ..o }, i)))
    } else if chars_eq_str(&name, "zero-terminated") {
        Some(Ok((Options { zero_terminated: true, ..o }, i)))
    } else if chars_eq_str(&name, "help") {
        Some(Ok((Options { show_help: true, ..o }, i)))
    } else if chars_eq_str(&name, "version") {
        Some(Ok((Options { show_version: true, ..o }, i)))
    } else {
        Some(Err(wrap_chars("不明なオプション: '--", &name, "'")))
    }
}

/// Reads the command line of `head` (the program name first): the
/// settings and the operands, or the first error, as `head_args_spec`
/// says; `None` where a byte count is out of range and `head` stops. The
/// operands are still to be expanded as patterns.
pub fn parse_args(args: &[String]) -> (r: Option<Result<(Options, Vec<String>), String>>)
    ensures
        match head_args_spec(strings_view(args@)) {
            Parsed::Value((o, files)) => r is Some && r->Some_0 is Ok && r->Some_0->Ok_0.0 == o
                && strings_view(r->Some_0->Ok_0.1@) == files,
            Parsed::Failed(e) => r is Some && r->Some_0 is Err && r->Some_0->Err_0@ == e,
            Parsed::Aborts => r is None,
        },
{
    let ghost sa = strings_view(args@);
    let mut o = Options { lines: None, bytes: None, quiet: false, verbose: false, zero_terminated: false,
        show_help: false, show_version: false };
    let mut files: Vec<String> = Vec::new();
    proof {
        assert(strings_view(files@) =~= Seq::<Seq<char>>::empty());
    }
    if args.len() == 0 {
        return Some(Ok((o, files)));
    }
    let mut i: usize = 1;
    while i < args.len()
        invariant
            1 <= i <= args.len(),
            sa == strings_view(args@),
            head_args_spec(sa) == head_args_from(sa, i as int, o, strings_view(files@)),
        decreases args.len() - i,
    {
        proof {
            lemma_head_arg_last(sa, i as int, o);
        }
        let a = chars_of(args[i].as_str());
        assert(a@ == sa[i as int]);
        let ghost before = strings_view(files@);
        if chars_eq_str(&a, "--") {
            crate::join::args::push_rest(&mut files, args, i + 1);
            proof {
                assert(head_args_from(sa, i as int, o, before) == Parsed::<(Options, Seq<Seq<char>>)>::Value((o, before + sa.skip(i + 1))));
            }
            return Some(Ok((o, files)));
        } else if starts_with_str(&a, "--") {
            match long_option_exec(args, i, o) {
                None => return None,
                Some(Err(e)) => return Some(Err(e)),
                Some(Ok((o2, last))) => {
                    o = o2;
                    i = last + 1;
                },
            }
        } else if a.len() > 1 && a[0] == '-' {
            let after = slice_chars(&a, 1, a.len());
            proof {
                assert(after@ =~= a@.skip(1));
            }
            let mut digits = true;
            let mut k: usize = 0;
            while k < after.len()
                invariant
                    k <= after.len(),
                    digits == (forall|x: int| 0 <= x < k ==> '0' <= #[trigger] after@[x] <= '9'),
                decreases after.len() - k,
            {
                if !('0' <= after[k] && after[k] <= '9') {
                    digits = false;
                }
                k += 1;
            }
            if digits {
                let n: isize = match parse_i64(&after) {
                    Some(n) => if n >= isize::MIN as i64 && n <= isize::MAX as i64 { n as isize } else { 10 },
                    None => 10,
                };
                o = Options { lines: Some(n), ..o };
                i += 1;
            } else {
                match short_options_exec(args, i, &after, o) {
                    None => return None,
                    Some(Err(e)) => return Some(Err(e)),
                    Some(Ok((o2, last))) => {
                        o = o2;
                        i = last + 1;
                    },
                }
            }
        } else {
            let f = args[i].clone();
            files.push(f);
            proof {
                assert(strings_view(files@) =~= before.push(sa[i as int]));
            }
            i += 1;
        }
    }
    Some(Ok((o, files)))
}

/// Whether the name of each file is printed before it: always with `-v`,
/// never with `-q`, else for more than one file.
pub fn show_header(opts: &Options, file_count: usize) -> (r: bool)
    ensures
        r == (opts.verbose || (!opts.quiet && file_count > 1)),
{
    opts.verbose || (!opts.quiet && file_count > 1)
}

/// How many bytes `head -c count` prints of `len`: the first `count`, or
/// all but the last `-count`.
pub open spec fn bytes_shown(len: int, count: int) -> int {
    if count >= 0 {
        if count < len { count } else { len }
    } else {
        if len >= -count { len + count } else { 0 }
    }
}

/// The bytes `head -c count` prints.
pub fn output_bytes(buffer: &[u8], count: isize) -> (r: Vec<u8>)
    requires
        count > isize::MIN,
    ensures
        r@ == buffer@.take(bytes_shown(buffer@.len() as int, count as int)),
{
    let len = buffer.len();
    let end: usize = if count >= 0 {
        if (count as usize) < len { count as usize } else { len }
    } else {
        let exclude = (-count) as usize;
        if len >= exclude { len - exclude } else { 0 }
    };
    let mut r: Vec<u8> = Vec::new();
    let mut k: usize = 0;
    while k < end
        invariant
            k <= end <= len,
            len == buffer.len(),
            r@ == buffer@.take(k as int),
        decreases end - k,
    {
        r.push(buffer[k]);
        proof {
            assert(buffer@.take(k + 1) =~= buffer@.take(k as int).push(buffer@[k as int]));
        }
        k += 1;
    }
    r
}

/// The lines `head -n count` prints of a text split at `sep`: the first
/// `count`, or all but the last `-count`; each followed by `sep` unless it
/// is the last line of a text that does not end in `sep`.
pub open spec fn lines_shown(content: Seq<char>, count: int, sep: char) -> Seq<char> {
    let lines = split_on(content, sep);
    let ends = content.len() > 0 && content.last() == sep;
    let actual = if ends && lines.len() > 0 && lines.last().len() == 0 { lines.len() - 1 } else { lines.len() as int };
    let shown = bytes_shown(actual, count);
    lines_text(lines, 0, shown, actual, ends, sep)
}

/// The lines `lines[k..n]`, each with its separator.
pub open spec fn lines_text(lines: Seq<Seq<char>>, k: int, n: int, actual: int, ends: bool, sep: char) -> Seq<char>
    decreases n - k,
{
    if k < 0 || k >= n || k >= lines.len() {
        Seq::empty()
    } else {
        lines[k] + (if k < actual - 1 || ends { seq![sep] } else { Seq::empty() }) + lines_text(lines, k + 1, n, actual, ends, sep)
    }
}

/// The text `head -n count` prints.
pub fn output_lines(content: &str, count: isize, zero_terminated: bool) -> (r: String)
    requires
        count > isize::MIN,
    ensures
        r@ == lines_shown(content@, count as int, if zero_terminated { '\0' } else { '\n' }),
{
    let sep = if zero_terminated { '\0' } else { '\n' };
    let mut lines: Vec<String> = Vec::new();
    push_pieces(&mut lines, content, sep);
    let ghost sl = strings_view(lines@);
    proof {
        assert(sl =~= split_on(content@, sep));
    }
    let v = chars_of(content);
    let ends = v.len() > 0 && v[v.len() - 1] == sep;
    let last_empty = lines.len() > 0 && chars_of(lines[lines.len() - 1].as_str()).len() == 0;
    proof {
        if lines.len() > 0 {
            assert(sl.last() == lines@[lines.len() - 1]@);
        }
    }
    let actual: usize = if ends && last_empty { lines.len() - 1 } else { lines.len() };
    let shown: usize = if count >= 0 {
        if (count as usize) < actual { count as usize } else { actual }
    } else {
        let exclude = (-count) as usize;
        if actual >= exclude { actual - exclude } else { 0 }
    };
    let mut out = String::new();
    let mut k: usize = 0;
    while k < shown
        invariant
            k <= shown <= actual <= lines.len(),
            sl == strings_view(lines@),
            lines_text(sl, 0, shown as int, actual as int, ends, sep)
                == out@ + lines_text(sl, k as int, shown as int, actual as int, ends, sep),
        decreases shown - k,
    {
        let ghost before = out@;
        out.append(lines[k].as_str());
        if k + 1 < actual || ends {
            push_char(&mut out, sep);
        }
        proof {
            let e = if k < actual - 1 || ends { seq![sep] } else { Seq::<char>::empty() };
            assert(out@ =~= before + (sl[k as int] + e));
            assert(before + (sl[k as int] + e + lines_text(sl, k + 1, shown as int, actual as int, ends, sep))
                =~= out@ + lines_text(sl, k + 1, shown as int, actual as int, ends, sep));
        }
        k += 1;
    }
    proof {
        assert(out@ + Seq::<char>::empty() =~= out@);
    }
    out
}


/// How many times `c` occurs in `s`.
pub open spec fn sep_count(s: Seq<char>, c: char) -> nat
    decreases s.len(),
{
    if s.len() == 0 {
        0
    } else {
        (if s[0] == c { 1nat } else { 0nat }) + sep_count(s.skip(1), c)
    }
}

/// `c` does not occur in `t`.
spec fn free_of(t: Seq<char>, c: char) -> bool {
    forall|j: int| 0 <= j < t.len() ==> t[j] != c
}

/// The pieces joined again with `c` between them.
spec fn glue(p: Seq<Seq<char>>, c: char) -> Seq<char>
    decreases p.len(),
{
    if p.len() == 0 {
        Seq::empty()
    } else if p.len() == 1 {
        p[0]
    } else {
        p[0] + seq![c] + glue(p.drop_first(), c)
    }
}

proof fn lemma_count_concat(a: Seq<char>, b: Seq<char>, c: char)
    ensures
        sep_count(a + b, c) == sep_count(a, c) + sep_count(b, c),
    decreases a.len(),
{
    if a.len() == 0 {
        assert(a + b =~= b);
    } else {
        assert((a + b).skip(1) =~= a.skip(1) + b);
        lemma_count_concat(a.skip(1), b, c);
    }
}

proof fn lemma_count_free(t: Seq<char>, c: char)
    requires
        free_of(t, c),
    ensures
        sep_count(t, c) == 0,
    decreases t.len(),
{
    if t.len() > 0 {
        lemma_count_free(t.skip(1), c);
    }
}

proof fn lemma_count_one(c: char)
    ensures
        sep_count(seq![c], c) == 1,
{
    assert(seq![c].skip(1) =~= Seq::<char>::empty());
    assert(sep_count(Seq::<char>::empty(), c) == 0);
    assert(seq![c][0] == c);
}

proof fn lemma_pieces_glue(s: Seq<char>, begin: int, i: int, c: char)
    requires
        0 <= begin <= i <= s.len(),
        forall|j: int| begin <= j < i ==> s[j] != c,
    ensures
        pieces_from(s, begin, i, c).len() >= 1,
        forall|k: int| 0 <= k < pieces_from(s, begin, i, c).len() ==> free_of(#[trigger] pieces_from(s, begin, i, c)[k], c),
        glue(pieces_from(s, begin, i, c), c) == s.subrange(begin, s.len() as int),
        pieces_from(s, begin, i, c).last().len() > 0 ==> s.len() > 0 && pieces_from(s, begin, i, c).last().last() == s.last(),
    decreases s.len() - i,
{
    let p = pieces_from(s, begin, i, c);
    if i >= s.len() {
    } else if s[i] == c {
        lemma_pieces_glue(s, i + 1, i + 1, c);
        let q = pieces_from(s, i + 1, i + 1, c);
        let head = s.subrange(begin, i);
        assert(p == seq![head] + q);
        assert(p.drop_first() =~= q);
        assert(forall|k: int| 0 < k < p.len() ==> p[k] == q[k - 1]);
        assert(s.subrange(begin, s.len() as int) =~= head + seq![c] + s.subrange(i + 1, s.len() as int));
        assert(p.last() == q.last());
    } else {
        lemma_pieces_glue(s, begin, i + 1, c);
    }
}

proof fn lemma_glue_count(p: Seq<Seq<char>>, c: char)
    requires
        p.len() >= 1,
        forall|k: int| 0 <= k < p.len() ==> free_of(#[trigger] p[k], c),
    ensures
        sep_count(glue(p, c), c) == p.len() - 1,
    decreases p.len(),
{
    lemma_count_free(p[0], c);
    if p.len() > 1 {
        let q = p.drop_first();
        assert(forall|k: int| 0 <= k < q.len() ==> q[k] == p[k + 1]);
        lemma_glue_count(q, c);
        lemma_count_concat(p[0] + seq![c], glue(q, c), c);
        lemma_count_concat(p[0], seq![c], c);
        lemma_count_one(c);
    }
}

proof fn lemma_lines_glue(l: Seq<Seq<char>>, k: int, n: int, actual: int, ends: bool, c: char)
    requires
        0 <= k <= n < l.len(),
        n <= actual,
        actual == l.len() || ends,
        forall|j: int| 0 <= j < l.len() ==> free_of(#[trigger] l[j], c),
    ensures
        lines_text(l, k, n, actual, ends, c) + glue(l.skip(n), c) == glue(l.skip(k), c),
        sep_count(lines_text(l, k, n, actual, ends, c), c) == n - k,
        n > k ==> lines_text(l, k, n, actual, ends, c).len() > 0 && lines_text(l, k, n, actual, ends, c).last() == c,
    decreases n - k,
{
    if k < n {
        lemma_lines_glue(l, k + 1, n, actual, ends, c);
        let t = lines_text(l, k + 1, n, actual, ends, c);
        assert(lines_text(l, k, n, actual, ends, c) == l[k] + seq![c] + t);
        assert(l.skip(k).drop_first() =~= l.skip(k + 1));
        assert(l.skip(k)[0] == l[k]);
        assert(glue(l.skip(k), c) == l[k] + seq![c] + glue(l.skip(k + 1), c));
        assert(l[k] + seq![c] + t + glue(l.skip(n), c) =~= l[k] + seq![c] + (t + glue(l.skip(n), c)));
        lemma_count_free(l[k], c);
        lemma_count_concat(l[k] + seq![c], t, c);
        lemma_count_concat(l[k], seq![c], c);
        lemma_count_one(c);
    } else {
        assert(lines_text(l, k, n, actual, ends, c) + glue(l.skip(n), c) =~= glue(l.skip(n), c));
    }
}

proof fn lemma_lines_whole(l: Seq<Seq<char>>, k: int, c: char)
    requires
        0 <= k < l.len(),
    ensures
        lines_text(l, k, l.len() as int, l.len() as int, false, c) == glue(l.skip(k), c),
    decreases l.len() - k,
{
    let n = l.len() as int;
    if k == n - 1 {
        assert(lines_text(l, k + 1, n, n, false, c) == Seq::<char>::empty());
        assert(lines_text(l, k, n, n, false, c) =~= l[k]);
        assert(l.skip(k).len() == 1);
    } else {
        lemma_lines_whole(l, k + 1, c);
        assert(l.skip(k).drop_first() =~= l.skip(k + 1));
        assert(l.skip(k)[0] == l[k]);
    }
}

/// `head -n count` with a count of zero or more prints the start of the
/// text: all of it when it holds fewer than `count` separators, else the
/// shortest start that holds `count` of them, every line printed being
/// followed by its separator.
pub proof fn lemma_head_lines_prefix(content: Seq<char>, count: int, sep: char)
    requires
        count >= 0,
    ensures
        is_prefix(lines_shown(content, count, sep), content),
        sep_count(content, sep) < count ==> lines_shown(content, count, sep) == content,
        sep_count(content, sep) >= count ==> sep_count(lines_shown(content, count, sep), sep) == count,
        sep_count(content, sep) >= count && count > 0 ==> lines_shown(content, count, sep).len() > 0
            && lines_shown(content, count, sep).last() == sep,
        count == 0 ==> lines_shown(content, count, sep).len() == 0,
{
    let l = split_on(content, sep);
    lemma_pieces_glue(content, 0, 0, sep);
    assert(content.subrange(0, content.len() as int) =~= content);
    assert(l.skip(0) =~= l);
    lemma_glue_count(l, sep);
    let ends = content.len() > 0 && content.last() == sep;
    let actual = if ends && l.len() > 0 && l.last().len() == 0 { l.len() - 1 } else { l.len() as int };
    if ends {
        if l.last().len() > 0 {
            assert(l.last()[l.last().len() - 1] != sep);
        }
    }
    let out = lines_shown(content, count, sep);
    let total = l.len() - 1;
    if total >= count {
        lemma_lines_glue(l, 0, count, actual, ends, sep);
        assert(content =~= out + glue(l.skip(count), sep));
        assert(content.take(out.len() as int) =~= out);
    } else if ends {
        lemma_lines_glue(l, 0, actual, actual, ends, sep);
        assert(l.skip(actual).len() == 1);
        assert(glue(l.skip(actual), sep) == l.last());
        assert(out + Seq::<char>::empty() =~= out);
        assert(content.take(out.len() as int) =~= out);
    } else {
        lemma_lines_whole(l, 0, sep);
        assert(content.take(out.len() as int) =~= out);
    }
}


/// The number of lines of a text: its separators, and one more when it
/// does not end in one.
pub open spec fn line_count(content: Seq<char>, sep: char) -> nat {
    sep_count(content, sep) + (if content.len() > 0 && content.last() != sep { 1nat } else { 0nat })
}

/// `head -n -count` prints all lines but the last `count`: the start of
/// the text that holds that many lines, each followed by its separator,
/// and nothing when the text has no more lines than that.
pub proof fn lemma_head_lines_all_but(content: Seq<char>, count: int, sep: char)
    requires
        count < 0,
    ensures
        is_prefix(lines_shown(content, count, sep), content),
        line_count(content, sep) + count > 0 ==> sep_count(lines_shown(content, count, sep), sep) == line_count(content, sep) + count
            && lines_shown(content, count, sep).len() > 0 && lines_shown(content, count, sep).last() == sep,
        line_count(content, sep) + count <= 0 ==> lines_shown(content, count, sep).len() == 0,
{
    let l = split_on(content, sep);
    lemma_pieces_glue(content, 0, 0, sep);
    assert(content.subrange(0, content.len() as int) =~= content);
    assert(l.skip(0) =~= l);
    lemma_glue_count(l, sep);
    let ends = content.len() > 0 && content.last() == sep;
    let actual = if ends && l.len() > 0 && l.last().len() == 0 { l.len() - 1 } else { l.len() as int };
    if ends {
        if l.last().len() > 0 {
            assert(l.last()[l.last().len() - 1] != sep);
        }
    }
    if content.len() == 0 {
        assert(sep_count(content, sep) == 0);
        assert(l.len() == 1);
    } else if !ends {
        assert(actual == line_count(content, sep));
    }
    let out = lines_shown(content, count, sep);
    let shown = bytes_shown(actual, count);
    if shown > 0 {
        lemma_lines_glue(l, 0, shown, actual, ends, sep);
        assert(content =~= out + glue(l.skip(shown), sep));
        assert(content.take(out.len() as int) =~= out);
    } else {
        assert(out.len() == 0);
        assert(content.take(0) =~= out);
    }
}


/// `head -c count` prints at most `count` bytes, all of them when the
/// input is no longer; `head -c -count` leaves out exactly the last `count`
/// bytes, or everything when there are fewer.
pub proof fn lemma_head_bytes(len: int, count: int)
    requires
        0 <= len,
    ensures
        0 <= bytes_shown(len, count) <= len,
        count >= 0 ==> bytes_shown(len, count) <= count && (bytes_shown(len, count) == len || bytes_shown(len, count) == count),
        count < 0 && len >= -count ==> bytes_shown(len, count) - count == len,
        count < 0 && len < -count ==> bytes_shown(len, count) == 0,
{
}


proof fn lemma_suffix_tail(d: Seq<char>, t: Seq<char>)
    requires
        1 <= t.len() <= 2,
    ensures
        ({
            let u = d + t;
            &&& u.skip(u.len() - t.len()) =~= t
            &&& u.skip(u.len() - 1) =~= seq![t.last()]
            &&& (t.len() == 1 && u.len() >= 2 ==> u.skip(u.len() - 2) =~= seq![d.last(), t.last()])
        }),
{
    let u = d + t;
    if t.len() == 1 && u.len() >= 2 {
        assert(u[u.len() - 2] == d.last());
    }
}

/// The suffixes of `head -c` after a number: `KB`, `MB`, `GB` count
/// thousands, `K`, `M`, `G` count powers of 1024, `B` counts blocks of 512
/// bytes, and a bare number counts bytes.
pub proof fn lemma_size_suffixes(d: Seq<char>)
    requires
        forall|j: int| 0 <= j < d.len() ==> '0' <= #[trigger] d[j] <= '9',
    ensures
        size_suffix(d + seq!['K', 'B']) == (1000int, 2int),
        size_suffix(d + seq!['M', 'B']) == (1000000int, 2int),
        size_suffix(d + seq!['G', 'B']) == (1000000000int, 2int),
        size_suffix(d + seq!['K']) == (1024int, 1int),
        size_suffix(d + seq!['M']) == (1048576int, 1int),
        size_suffix(d + seq!['G']) == (1073741824int, 1int),
        size_suffix(d + seq!['B']) == (512int, 1int),
        size_suffix(d) == (1int, 0int),
{
    reveal_strlit("KB");
    reveal_strlit("MB");
    reveal_strlit("GB");
    reveal_strlit("K");
    reveal_strlit("M");
    reveal_strlit("G");
    reveal_strlit("B");
    assert("KB"@ =~= seq!['K', 'B']);
    assert("MB"@ =~= seq!['M', 'B']);
    assert("GB"@ =~= seq!['G', 'B']);
    assert("K"@ =~= seq!['K']);
    assert("M"@ =~= seq!['M']);
    assert("G"@ =~= seq!['G']);
    assert("B"@ =~= seq!['B']);
    lemma_suffix_tail(d, seq!['K', 'B']);
    lemma_suffix_tail(d, seq!['M', 'B']);
    lemma_suffix_tail(d, seq!['G', 'B']);
    lemma_suffix_tail(d, seq!['K']);
    lemma_suffix_tail(d, seq!['M']);
    lemma_suffix_tail(d, seq!['G']);
    lemma_suffix_tail(d, seq!['B']);
    if d.len() >= 2 {
        assert(d.skip(d.len() - 2) =~= seq![d[d.len() - 2], d.last()]);
    }
    if d.len() >= 1 {
        assert(d.skip(d.len() - 1) =~= seq![d.last()]);
    }
}

} // verus!
