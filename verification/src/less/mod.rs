//! The library side of `less`: its command line, the layout of lines on
//! the screen (tabs, wrapping, cutting), and the pager's state machine.
use vstd::prelude::*;
use crate::text::{chars_of, chars_eq_str, starts_with_str, is_prefix, parse_usize, parse_int_spec, slice_chars,
    string_of, push_char, all_digits, is_digit};
use crate::find::expression::strings_view;
use crate::join::args::push_rest;
use crate::kill::{strip_all_prefix, strip_prefix_all};

pub mod layout;
pub mod pager;

verus! {

/// How much the prompt tells: `-m` and `-M` make it longer.
#[derive(Debug, Clone, Copy, PartialEq, Eq, Structural)]
pub enum PromptMode {
    Short,
    Medium,
    Long,
}

/// The settings of `less`.
#[derive(Debug)]
pub struct Options {
    pub number: bool,
    pub chop_long: bool,
    pub squeeze_blank: bool,
    pub ignore_case: bool,
    pub smart_case: bool,
    pub quit_if_one_screen: bool,
    pub quit_at_eof: bool,
    pub no_init: bool,
    pub follow_mode: bool,
    pub prompt_mode: PromptMode,
    pub start_pattern: Option<String>,
    pub start_line: Option<usize>,
    pub tab_stop: usize,
    pub show_help: bool,
    pub show_version: bool,
}

/// The settings as values, with the operands read so far.
pub struct LessSettings {
    pub number: bool,
    pub chop_long: bool,
    pub squeeze_blank: bool,
    pub ignore_case: bool,
    pub smart_case: bool,
    pub quit_if_one_screen: bool,
    pub quit_at_eof: bool,
    pub no_init: bool,
    pub follow_mode: bool,
    pub prompt_mode: PromptMode,
    pub start_pattern: Option<Seq<char>>,
    pub start_line: Option<usize>,
    pub tab_stop: usize,
    pub show_help: bool,
    pub show_version: bool,
}

pub open spec fn opt_view(o: Option<String>) -> Option<Seq<char>> {
    match o {
        Some(s) => Some(s@),
        None => None,
    }
}

/// The settings that `o` holds.
pub open spec fn settings_of(o: Options) -> LessSettings {
    LessSettings {
        number: o.number,
        chop_long: o.chop_long,
        squeeze_blank: o.squeeze_blank,
        ignore_case: o.ignore_case,
        smart_case: o.smart_case,
        quit_if_one_screen: o.quit_if_one_screen,
        quit_at_eof: o.quit_at_eof,
        no_init: o.no_init,
        follow_mode: o.follow_mode,
        prompt_mode: o.prompt_mode,
        start_pattern: opt_view(o.start_pattern),
        start_line: o.start_line,
        tab_stop: o.tab_stop,
        show_help: o.show_help,
        show_version: o.show_version,
    }
}

/// A tab width: the number, or 8 when it is none.
pub open spec fn tab_value(s: Seq<char>) -> usize {
    match parse_int_spec(s, 0, usize::MAX as int) {
        Some(n) => n as usize,
        None => 8,
    }
}

/// What `+CMD` does: `+N` starts at line N, `+F` follows the file, `+/P`
/// searches P first; anything else is ignored.
pub open spec fn plus_command(cmd: Seq<char>, c: LessSettings) -> LessSettings {
    if all_digits(cmd) {
        LessSettings {
            start_line: match parse_int_spec(cmd, 0, usize::MAX as int) {
                Some(n) => Some(n as usize),
                None => None,
            },
            ..c
        }
    } else if cmd == "F"@ {
        LessSettings { follow_mode: true, ..c }
    } else if cmd.len() > 0 && cmd[0] == '/' {
        LessSettings { start_pattern: Some(cmd.skip(1)), ..c }
    } else {
        c
    }
}

/// What a long option does.
pub open spec fn long_option(a: Seq<char>, c: LessSettings) -> Result<LessSettings, Seq<char>> {
    if a == "--help"@ {
        Ok(LessSettings { show_help: true, ..c })
    } else if a == "--version"@ {
        Ok(LessSettings { show_version: true, ..c })
    } else if a == "--line-numbers"@ {
        Ok(LessSettings { number: true, ..c })
    } else if a == "--chop-long-lines"@ {
        Ok(LessSettings { chop_long: true, ..c })
    } else if a == "--squeeze-blank-lines"@ {
        Ok(LessSettings { squeeze_blank: true, ..c })
    } else if a == "--ignore-case"@ {
        Ok(LessSettings { ignore_case: true, ..c })
    } else if a == "--IGNORE-CASE"@ {
        Ok(LessSettings { smart_case: true, ..c })
    } else if a == "--quit-if-one-screen"@ {
        Ok(LessSettings { quit_if_one_screen: true, ..c })
    } else if a == "--quit-at-eof"@ {
        Ok(LessSettings { quit_at_eof: true, ..c })
    } else if a == "--no-init"@ {
        Ok(LessSettings { no_init: true, ..c })
    } else if is_prefix("--tabs="@, a) {
        Ok(LessSettings { tab_stop: tab_value(strip_all_prefix(a, "--tabs="@)), ..c })
    } else if is_prefix("--pattern="@, a) {
        Ok(LessSettings { start_pattern: Some(strip_all_prefix(a, "--pattern="@)), ..c })
    } else {
        Err("不明なオプション: '"@ + a + "'"@)
    }
}

/// What one flag letter of a cluster does (not `p` or `x`).
pub open spec fn flag(x: char, c: LessSettings) -> Option<LessSettings> {
    if x == 'N' {
        Some(LessSettings { number: true, ..c })
    } else if x == 'S' {
        Some(LessSettings { chop_long: true, ..c })
    } else if x == 's' {
        Some(LessSettings { squeeze_blank: true, ..c })
    } else if x == 'i' {
        Some(LessSettings { ignore_case: true, ..c })
    } else if x == 'I' {
        Some(LessSettings { smart_case: true, ..c })
    } else if x == 'F' {
        Some(LessSettings { quit_if_one_screen: true, ..c })
    } else if x == 'e' {
        Some(LessSettings { quit_at_eof: true, ..c })
    } else if x == 'X' {
        Some(LessSettings { no_init: true, ..c })
    } else if x == 'm' {
        Some(LessSettings { prompt_mode: PromptMode::Medium, ..c })
    } else if x == 'M' {
        Some(LessSettings { prompt_mode: PromptMode::Long, ..c })
    } else if x == 'n' {
        Some(c)
    } else if x == 'h' {
        Some(LessSettings { show_help: true, ..c })
    } else if x == 'V' {
        Some(LessSettings { show_version: true, ..c })
    } else {
        None
    }
}

/// A cluster of short options `chars[j..]` of the argument at `i`: `p`
/// and `x` take the rest of the argument, or the next argument, as their
/// value; the index of the last argument used.
pub open spec fn cluster(args: Seq<Seq<char>>, i: int, chars: Seq<char>, j: int, c: LessSettings) -> Result<(LessSettings, int), Seq<char>>
    decreases chars.len() - j,
{
    if j < 0 || j >= chars.len() {
        Ok((c, i))
    } else {
        let x = chars[j];
        let rest = chars.skip(j + 1);
        if x == 'p' {
            if rest.len() > 0 {
                Ok((LessSettings { start_pattern: Some(rest), ..c }, i))
            } else if i + 1 < args.len() {
                Ok((LessSettings { start_pattern: Some(args[i + 1]), ..c }, i + 1))
            } else {
                Ok((c, i))
            }
        } else if x == 'x' {
            if rest.len() > 0 {
                Ok((LessSettings { tab_stop: tab_value(rest), ..c }, i))
            } else if i + 1 < args.len() {
                Ok((LessSettings { tab_stop: tab_value(args[i + 1]), ..c }, i + 1))
            } else {
                Ok((c, i))
            }
        } else {
            match flag(x, c) {
                Some(c2) => cluster(args, i, chars, j + 1, c2),
                None => Err("不明なオプション: '-"@ + seq![x] + "'"@),
            }
        }
    }
}

/// What the argument at `i` does to the settings `c` and the operands
/// `files`, and where the next argument starts.
pub open spec fn less_step(args: Seq<Seq<char>>, i: int, c: LessSettings, files: Seq<Seq<char>>)
    -> Result<(LessSettings, Seq<Seq<char>>, int), Seq<char>>
{
    let a = args[i];
    if a == "--"@ {
        Ok((c, files + args.skip(i + 1), args.len() as int))
    } else if a.len() > 0 && a[0] == '+' {
        Ok((plus_command(a.skip(1), c), files, i + 1))
    } else if is_prefix("--"@, a) {
        match long_option(a, c) {
            Ok(c2) => Ok((c2, files, i + 1)),
            Err(e) => Err(e),
        }
    } else if a.len() > 1 && a[0] == '-' {
        match cluster(args, i, a.skip(1), 0, c) {
            Ok((c2, last)) => Ok((c2, files, last + 1)),
            Err(e) => Err(e),
        }
    } else {
        Ok((c, files.push(a), i + 1))
    }
}

/// The settings and operands from the argument at `i` on.
pub open spec fn less_args_from(args: Seq<Seq<char>>, i: int, c: LessSettings, files: Seq<Seq<char>>)
    -> Result<(LessSettings, Seq<Seq<char>>), Seq<char>>
    decreases args.len() - i,
{
    if i < 0 || i >= args.len() {
        Ok((c, files))
    } else {
        match less_step(args, i, c, files) {
            Ok((c2, f2, next)) => if i < next <= args.len() { less_args_from(args, next, c2, f2) } else { Err(Seq::empty()) },
            Err(e) => Err(e),
        }
    }
}

/// The settings before any argument.
pub open spec fn default_settings() -> LessSettings {
    LessSettings {
        number: false, chop_long: false, squeeze_blank: false, ignore_case: false, smart_case: false,
        quit_if_one_screen: false, quit_at_eof: false, no_init: false, follow_mode: false,
        prompt_mode: PromptMode::Short, start_pattern: None, start_line: None, tab_stop: 8,
        show_help: false, show_version: false,
    }
}

/// The command line of `less` (`args[0]` is the program's name).
pub open spec fn less_args_spec(args: Seq<Seq<char>>) -> Result<(LessSettings, Seq<Seq<char>>), Seq<char>> {
    less_args_from(args, 1, default_settings(), Seq::empty())
}

pub proof fn lemma_cluster(args: Seq<Seq<char>>, i: int, chars: Seq<char>, j: int, c: LessSettings)
    ensures
        match cluster(args, i, chars, j, c) {
            Ok((_, last)) => i <= last <= i + 1 && (last == i + 1 ==> i + 1 < args.len()),
            Err(_) => true,
        },
    decreases chars.len() - j,
{
    if 0 <= j < chars.len() && chars[j] != 'p' && chars[j] != 'x' {
        match flag(chars[j], c) {
            Some(c2) => lemma_cluster(args, i, chars, j + 1, c2),
            None => {},
        }
    }
}

/// A tab width from its text.
fn tab_value_exec(v: &[char]) -> (r: usize)
    ensures
        r == tab_value(v@),
{
    match parse_usize(v) {
        Some(n) => n,
        None => 8,
    }
}

/// Whether every character of `v` is an ASCII digit.
fn all_digits_exec(v: &[char]) -> (r: bool)
    ensures
        r == all_digits(v@),
{
    let mut i: usize = 0;
    while i < v.len()
        invariant
            i <= v.len(),
            forall|j: int| 0 <= j < i ==> is_digit(#[trigger] v@[j]),
        decreases v.len() - i,
    {
        let d = v[i] as u32;
        if !(48 <= d && d < 58) {
            assert(!is_digit(v@[i as int]));
            return false;
        }
        i += 1;
    }
    true
}

/// Applies `+CMD`.
fn apply_plus(cmd: &Vec<char>, o: &mut Options)
    ensures
        settings_of(*final(o)) == plus_command(cmd@, settings_of(*old(o))),
{
    proof {
        reveal_strlit("F");
    }
    if all_digits_exec(cmd) {
        o.start_line = parse_usize(cmd);
    } else if chars_eq_str(cmd, "F") {
        o.follow_mode = true;
    } else if cmd.len() > 0 && cmd[0] == '/' {
        let rest = slice_chars(cmd, 1, cmd.len());
        assert(rest@ =~= cmd@.skip(1));
        o.start_pattern = Some(string_of(&rest));
    }
}

/// Applies a long option.
#[verifier::rlimit(80)]
fn apply_long(a: &Vec<char>, arg: &String, o: &mut Options) -> (r: Result<(), String>)
    requires
        a@ == arg@,
    ensures
        match long_option(a@, settings_of(*old(o))) {
            Ok(c) => r is Ok && settings_of(*final(o)) == c,
            Err(e) => r is Err && r->Err_0@ == e,
        },
{
    proof {
        reveal_strlit("--tabs=");
        reveal_strlit("--pattern=");
    }
    if chars_eq_str(a, "--help") {
        o.show_help = true;
    } else if chars_eq_str(a, "--version") {
        o.show_version = true;
    } else if chars_eq_str(a, "--line-numbers") {
        o.number = true;
    } else if chars_eq_str(a, "--chop-long-lines") {
        o.chop_long = true;
    } else if chars_eq_str(a, "--squeeze-blank-lines") {
        o.squeeze_blank = true;
    } else if chars_eq_str(a, "--ignore-case") {
        o.ignore_case = true;
    } else if chars_eq_str(a, "--IGNORE-CASE") {
        o.smart_case = true;
    } else if chars_eq_str(a, "--quit-if-one-screen") {
        o.quit_if_one_screen = true;
    } else if chars_eq_str(a, "--quit-at-eof") {
        o.quit_at_eof = true;
    } else if chars_eq_str(a, "--no-init") {
        o.no_init = true;
    } else if starts_with_str(a, "--tabs=") {
        let v = strip_prefix_all(a, "--tabs=");
        o.tab_stop = tab_value_exec(&v);
    } else if starts_with_str(a, "--pattern=") {
        let v = strip_prefix_all(a, "--pattern=");
        o.start_pattern = Some(string_of(&v));
    } else {
        return Err(crate::text::join3("不明なオプション: '", arg.as_str(), "'"));
    }
    Ok(())
}

/// Applies one flag letter; false when the letter is no option.
#[verifier::rlimit(100)]
fn apply_flag(x: char, o: &mut Options) -> (r: bool)
    ensures
        match flag(x, settings_of(*old(o))) {
            Some(c) => r && settings_of(*final(o)) == c,
            None => !r,
        },
{
    if x == 'N' {
        o.number = true;
    } else if x == 'S' {
        o.chop_long = true;
    } else if x == 's' {
        o.squeeze_blank = true;
    } else if x == 'i' {
        o.ignore_case = true;
    } else if x == 'I' {
        o.smart_case = true;
    } else if x == 'F' {
        o.quit_if_one_screen = true;
    } else if x == 'e' {
        o.quit_at_eof = true;
    } else if x == 'X' {
        o.no_init = true;
    } else if x == 'm' {
        o.prompt_mode = PromptMode::Medium;
    } else if x == 'M' {
        o.prompt_mode = PromptMode::Long;
    } else if x == 'n' {
    } else if x == 'h' {
        o.show_help = true;
    } else if x == 'V' {
        o.show_version = true;
    } else {
        return false;
    }
    true
}

/// One letter `a[k]` of a cluster: `Some(last)` when the cluster ends
/// there, `None` to go on with the next letter.
#[verifier::rlimit(80)]
fn cluster_letter(args: &[String], i: usize, a: &Vec<char>, k: usize, o: &mut Options) -> (r: Result<Option<usize>, String>)
    requires
        i < args.len(),
        1 <= k < a.len(),
    ensures
        match r {
            Ok(Some(last)) => cluster(strings_view(args@), i as int, a@.skip(1), k - 1, settings_of(*old(o)))
                == Ok::<(LessSettings, int), Seq<char>>((settings_of(*final(o)), last as int)),
            Ok(None) => cluster(strings_view(args@), i as int, a@.skip(1), k - 1, settings_of(*old(o)))
                == cluster(strings_view(args@), i as int, a@.skip(1), k as int, settings_of(*final(o))),
            Err(e) => cluster(strings_view(args@), i as int, a@.skip(1), k - 1, settings_of(*old(o)))
                == Err::<(LessSettings, int), Seq<char>>(e@),
        },
{
    let ghost sv = strings_view(args@);
    let ghost chars = a@.skip(1);
    let x = a[k];
    assert(chars[k - 1] == x);
    if x == 'p' || x == 'x' {
        if k + 1 < a.len() {
            let rest = slice_chars(a, k + 1, a.len());
            assert(rest@ =~= chars.skip(k as int));
            if x == 'p' {
                o.start_pattern = Some(string_of(&rest));
            } else {
                o.tab_stop = tab_value_exec(&rest);
            }
            Ok(Some(i))
        } else if i + 1 < args.len() {
            assert(chars.skip(k as int).len() == 0);
            assert(sv[i + 1] == args@[i + 1]@);
            if x == 'p' {
                o.start_pattern = Some(args[i + 1].clone());
            } else {
                let v = chars_of(args[i + 1].as_str());
                o.tab_stop = tab_value_exec(&v);
            }
            Ok(Some(i + 1))
        } else {
            assert(chars.skip(k as int).len() == 0);
            Ok(Some(i))
        }
    } else if !apply_flag(x, o) {
        let mut m = String::from_str("不明なオプション: '-");
        push_char(&mut m, x);
        m.append("'");
        proof {
            assert(m@ =~= "不明なオプション: '-"@ + seq![x] + "'"@);
        }
        Err(m)
    } else {
        Ok(None)
    }
}

/// Reads the cluster of short options of the argument at `i`.
#[verifier::rlimit(80)]
fn read_cluster(args: &[String], i: usize, a: &Vec<char>, o: &mut Options) -> (r: Result<usize, String>)
    requires
        i < args.len(),
        a.len() >= 1,
    ensures
        match cluster(strings_view(args@), i as int, a@.skip(1), 0, settings_of(*old(o))) {
            Ok((c, last)) => r is Ok && r->Ok_0 == last && settings_of(*final(o)) == c,
            Err(e) => r is Err && r->Err_0@ == e,
        },
{
    let ghost sv = strings_view(args@);
    let ghost chars = a@.skip(1);
    let ghost want = cluster(sv, i as int, chars, 0, settings_of(*o));
    let mut k: usize = 1;
    while k < a.len()
        invariant
            1 <= k <= a.len(),
            i < args.len(),
            sv == strings_view(args@),
            chars == a@.skip(1),
            want == cluster(strings_view(args@), i as int, a@.skip(1), 0, settings_of(*old(o))),
            want == cluster(sv, i as int, chars, k - 1, settings_of(*o)),
        decreases a.len() - k,
    {
        match cluster_letter(args, i, a, k, o) {
            Ok(Some(last)) => {
                return Ok(last);
            },
            Ok(None) => {},
            Err(e) => {
                return Err(e);
            },
        }
        k += 1;
    }
    Ok(i)
}

/// Reads the argument at `i`; where the next one starts.
#[verifier::rlimit(80)]
fn read_arg(args: &[String], i: usize, o: &mut Options, files: &mut Vec<String>) -> (r: Result<usize, String>)
    requires
        1 <= i < args.len(),
    ensures
        match less_step(strings_view(args@), i as int, settings_of(*old(o)), strings_view(old(files)@)) {
            Ok((c, f, next)) => r is Ok && r->Ok_0 as int == next && settings_of(*final(o)) == c
                && strings_view(final(files)@) == f,
            Err(e) => r is Err && r->Err_0@ == e,
        },
        r is Ok ==> i < r->Ok_0 <= args.len(),
{
    proof {
        reveal_strlit("--");
    }
    let ghost sv = strings_view(args@);
    let a = chars_of(args[i].as_str());
    assert(a@ == sv[i as int]);
    if chars_eq_str(&a, "--") {
        push_rest(files, args, i + 1);
        Ok(args.len())
    } else if a.len() > 0 && a[0] == '+' {
        let cmd = slice_chars(&a, 1, a.len());
        assert(cmd@ =~= a@.skip(1));
        apply_plus(&cmd, o);
        Ok(i + 1)
    } else if starts_with_str(&a, "--") {
        match apply_long(&a, &args[i], o) {
            Ok(()) => Ok(i + 1),
            Err(e) => Err(e),
        }
    } else if a.len() > 1 && a[0] == '-' {
        proof {
            lemma_cluster(sv, i as int, a@.skip(1), 0, settings_of(*o));
        }
        match read_cluster(args, i, &a, o) {
            Ok(last) => Ok(last + 1),
            Err(e) => Err(e),
        }
    } else {
        let ghost before = strings_view(files@);
        files.push(args[i].clone());
        proof {
            assert(strings_view(files@) =~= before.push(sv[i as int]));
        }
        Ok(i + 1)
    }
}

/// Reads the command line of `less` (`args[0]` is the program's name): the
/// settings and the operands (patterns not yet expanded), or the message of
/// the first error, as `less_args_spec` says.
#[verifier::rlimit(80)]
pub fn parse_args(args: &[String]) -> (r: Result<(Options, Vec<String>), String>)
    ensures
        match less_args_spec(strings_view(args@)) {
            Ok((c, f)) => r is Ok && settings_of(r->Ok_0.0) == c && strings_view(r->Ok_0.1@) == f,
            Err(e) => r is Err && r->Err_0@ == e,
        },
{
    let ghost sv = strings_view(args@);
    let mut o = Options {
        number: false, chop_long: false, squeeze_blank: false, ignore_case: false, smart_case: false,
        quit_if_one_screen: false, quit_at_eof: false, no_init: false, follow_mode: false,
        prompt_mode: PromptMode::Short, start_pattern: None, start_line: None, tab_stop: 8,
        show_help: false, show_version: false,
    };
    let mut files: Vec<String> = Vec::new();
    proof {
        assert(strings_view(files@) =~= Seq::<Seq<char>>::empty());
        assert(settings_of(o) == default_settings());
    }
    if args.len() == 0 {
        return Ok((o, files));
    }
    let mut i: usize = 1;
    while i < args.len()
        invariant
            1 <= i <= args.len(),
            sv == strings_view(args@),
            less_args_spec(sv) == less_args_from(sv, i as int, settings_of(o), strings_view(files@)),
        decreases args.len() - i,
    {
        match read_arg(args, i, &mut o, &mut files) {
            Ok(next) => {
                i = next;
            },
            Err(e) => {
                return Err(e);
            },
        }
    }
    Ok((o, files))
}

} // verus!
