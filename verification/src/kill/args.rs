//! The command line of `kill`.
use vstd::prelude::*;
use crate::text::{chars_of, chars_eq_str, starts_with_str, is_prefix, parse_i32, parse_int_spec, slice_chars,
    string_of, to_uppercase, uppercase_of, wrap_chars, concat, join3};
use crate::find::expression::strings_view;
use crate::kill::{parse_signal, parse_signal_spec, signal_number, signal_number_spec, strip_sig, strip_all_prefix};

verus! {

/// The settings of `kill`.
#[derive(Debug)]
pub struct Options {
    pub signal: i32,
    pub list_signals: bool,
    pub list_table: bool,
    pub list_args: Vec<String>,
    pub show_help: bool,
    pub show_version: bool,
}

/// The settings and operands as values, with whether `--` was read.
pub struct KillSettings {
    pub signal: int,
    pub list_signals: bool,
    pub list_table: bool,
    pub list_args: Seq<Seq<char>>,
    pub show_help: bool,
    pub show_version: bool,
    pub targets: Seq<Seq<char>>,
    pub rest: bool,
}

/// The message of an option that takes a value given last.
pub open spec fn needs_value(opt: char) -> Seq<char> {
    if opt == 's' { "オプション '-s' には引数が必要です"@ } else { "オプション '-n' には引数が必要です"@ }
}

/// What a long option (`--...`) does.
pub open spec fn kill_long(a: Seq<char>, c: KillSettings) -> Result<KillSettings, Seq<char>> {
    if a == "--list"@ {
        Ok(KillSettings { list_signals: true, ..c })
    } else if a == "--table"@ {
        Ok(KillSettings { list_table: true, ..c })
    } else if a == "--help"@ {
        Ok(KillSettings { show_help: true, ..c })
    } else if a == "--version"@ {
        Ok(KillSettings { show_version: true, ..c })
    } else if is_prefix("--signal="@, a) {
        match parse_signal_spec(strip_all_prefix(a, "--signal="@)) {
            Ok(n) => Ok(KillSettings { signal: n, ..c }),
            Err(e) => Err(e),
        }
    } else {
        Err("不明なオプション: '"@ + a + "'"@)
    }
}

/// Where the arguments of `-l` end: at the first one that starts with `-`.
pub open spec fn list_end(args: Seq<Seq<char>>, j: int) -> int
    decreases args.len() - j,
{
    if 0 <= j < args.len() && !(args[j].len() > 0 && args[j][0] == '-') {
        list_end(args, j + 1)
    } else {
        j
    }
}

/// What the short option at `i` (`-X...`, with `o` the text after `-`)
/// does, and where the next argument starts.
pub open spec fn kill_short(args: Seq<Seq<char>>, i: int, c: KillSettings) -> Result<(KillSettings, int), Seq<char>> {
    let o = args[i].skip(1);
    if '0' <= o[0] && o[0] <= '9' {
        match parse_int_spec(o, i32::MIN as int, i32::MAX as int) {
            Some(n) => Ok((KillSettings { signal: n, ..c }, i + 1)),
            None => Err("不正なシグナル番号: '"@ + o + "'"@),
        }
    } else if o == "l"@ {
        let end = list_end(args, i + 1);
        Ok((KillSettings { list_signals: true, list_args: c.list_args + args.subrange(i + 1, end), ..c }, end))
    } else if o == "L"@ {
        Ok((KillSettings { list_table: true, ..c }, i + 1))
    } else if o == "s"@ {
        if i + 1 >= args.len() {
            Err(needs_value('s'))
        } else {
            match parse_signal_spec(args[i + 1]) {
                Ok(n) => Ok((KillSettings { signal: n, ..c }, i + 2)),
                Err(e) => Err(e),
            }
        }
    } else if o.len() > 1 && o[0] == 's' {
        match parse_signal_spec(o.skip(1)) {
            Ok(n) => Ok((KillSettings { signal: n, ..c }, i + 1)),
            Err(e) => Err(e),
        }
    } else if o == "n"@ {
        if i + 1 >= args.len() {
            Err(needs_value('n'))
        } else {
            match parse_int_spec(args[i + 1], i32::MIN as int, i32::MAX as int) {
                Some(n) => Ok((KillSettings { signal: n, ..c }, i + 2)),
                None => Err("不正なシグナル番号: '"@ + args[i + 1] + "'"@),
            }
        }
    } else {
        match signal_number_spec(strip_all_prefix(uppercase_of(o), "SIG"@)) {
            Some(n) => Ok((KillSettings { signal: n, ..c }, i + 1)),
            None => Err("不明なオプション: '-"@ + o + "'"@),
        }
    }
}

/// The settings and operands from the argument at `i` on: after `--`
/// every argument is an operand; `-` alone is one too.
pub open spec fn kill_args_from(args: Seq<Seq<char>>, i: int, c: KillSettings) -> Result<KillSettings, Seq<char>>
    decreases args.len() - i,
{
    if i < 0 || i >= args.len() {
        Ok(c)
    } else {
        let a = args[i];
        if a == "--"@ {
            kill_args_from(args, i + 1, KillSettings { rest: true, ..c })
        } else if c.rest {
            kill_args_from(args, i + 1, KillSettings { targets: c.targets.push(a), ..c })
        } else if is_prefix("--"@, a) {
            match kill_long(a, c) {
                Ok(c2) => kill_args_from(args, i + 1, c2),
                Err(e) => Err(e),
            }
        } else if a.len() > 1 && a[0] == '-' {
            match kill_short(args, i, c) {
                Ok((c2, next)) => if i < next <= args.len() { kill_args_from(args, next, c2) } else { Err(Seq::empty()) },
                Err(e) => Err(e),
            }
        } else {
            kill_args_from(args, i + 1, KillSettings { targets: c.targets.push(a), ..c })
        }
    }
}

/// The command line of `kill` (`args[0]` is the program's name): the
/// settings, signal 15 unless one is given, and the operands; or the
/// message of the first error.
pub open spec fn kill_args_spec(args: Seq<Seq<char>>) -> Result<KillSettings, Seq<char>> {
    kill_args_from(args, 1, KillSettings { signal: 15, list_signals: false, list_table: false, list_args: Seq::empty(),
        show_help: false, show_version: false, targets: Seq::empty(), rest: false })
}

/// The settings that `o` and `targets` hold, with whether `--` was read.
pub open spec fn settings_of(o: Options, targets: Seq<String>, rest: bool) -> KillSettings {
    KillSettings {
        signal: o.signal as int,
        list_signals: o.list_signals,
        list_table: o.list_table,
        list_args: strings_view(o.list_args@),
        show_help: o.show_help,
        show_version: o.show_version,
        targets: strings_view(targets),
        rest: rest,
    }
}

pub proof fn lemma_list_end(args: Seq<Seq<char>>, j: int)
    requires
        0 <= j <= args.len(),
    ensures
        j <= list_end(args, j) <= args.len(),
    decreases args.len() - j,
{
    if j < args.len() && !(args[j].len() > 0 && args[j][0] == '-') {
        lemma_list_end(args, j + 1);
    }
}

/// What a long option does to the settings.
fn long_option(a: &Vec<char>, arg: &String, opts: &mut Options) -> (r: Result<(), String>)
    requires
        a@ == arg@,
    ensures
        match kill_long(a@, settings_of(*old(opts), Seq::empty(), false)) {
            Ok(c) => r is Ok && settings_of(*final(opts), Seq::empty(), false) == c,
            Err(e) => r is Err && r->Err_0@ == e,
        },
{
    if chars_eq_str(a, "--list") {
        opts.list_signals = true;
    } else if chars_eq_str(a, "--table") {
        opts.list_table = true;
    } else if chars_eq_str(a, "--help") {
        opts.show_help = true;
    } else if chars_eq_str(a, "--version") {
        opts.show_version = true;
    } else if starts_with_str(a, "--signal=") {
        let s = strip_signal_prefix(a);
        match parse_signal(s.as_str()) {
            Ok(n) => opts.signal = n,
            Err(e) => return Err(e),
        }
    } else {
        return Err(join3("不明なオプション: '", arg.as_str(), "'"));
    }
    Ok(())
}

/// `a` with every leading `--signal=` taken off.
fn strip_signal_prefix(a: &Vec<char>) -> (r: String)
    ensures
        r@ == strip_all_prefix(a@, "--signal="@),
{
    proof {
        reveal_strlit("--signal=");
    }
    let mut i: usize = 0;
    proof {
        assert(a@.skip(0) =~= a@);
    }
    loop
        invariant
            i <= a.len(),
            "--signal="@.len() == 9,
            strip_all_prefix(a@, "--signal="@) == strip_all_prefix(a@.skip(i as int), "--signal="@),
        decreases a.len() - i,
    {
        let rest = slice_chars(a, i, a.len());
        assert(rest@ =~= a@.skip(i as int));
        if !starts_with_str(&rest, "--signal=") {
            return string_of(&rest);
        }
        proof {
            assert(a@.skip(i as int).skip(9) =~= a@.skip(i + 9));
        }
        i += 9;
    }
}

/// The end of the arguments of `-l` from `j` on.
fn list_end_exec(args: &[String], j: usize) -> (r: usize)
    requires
        j <= args.len(),
    ensures
        r as int == list_end(strings_view(args@), j as int),
{
    let ghost sv = strings_view(args@);
    let mut k = j;
    while k < args.len()
        invariant
            j <= k <= args.len(),
            sv == strings_view(args@),
            list_end(sv, j as int) == list_end(sv, k as int),
        decreases args.len() - k,
    {
        let v = chars_of(args[k].as_str());
        assert(v@ == sv[k as int]);
        if v.len() > 0 && v[0] == '-' {
            return k;
        }
        k += 1;
    }
    k
}

/// What the short option at `i` does to the settings; the index of the
/// next argument.
fn short_option(args: &[String], i: usize, opts: &mut Options) -> (r: Result<usize, String>)
    requires
        i < args.len(),
        args@[i as int]@.len() > 1,
    ensures
        match kill_short(strings_view(args@), i as int, settings_of(*old(opts), Seq::empty(), false)) {
            Ok((c, next)) => r is Ok && r->Ok_0 as int == next && settings_of(*final(opts), Seq::empty(), false) == c,
            Err(e) => r is Err && r->Err_0@ == e,
        },
        r is Ok ==> i < r->Ok_0 <= args.len(),
{
    proof {
        reveal_strlit("l");
        reveal_strlit("L");
        reveal_strlit("s");
        reveal_strlit("n");
    }
    let ghost sv = strings_view(args@);
    let a = chars_of(args[i].as_str());
    assert(a@ == sv[i as int]);
    let o = slice_chars(&a, 1, a.len());
    assert(o@ =~= a@.skip(1));
    if '0' <= o[0] && o[0] <= '9' {
        match parse_i32(&o) {
            Some(n) => {
                opts.signal = n;
                Ok(i + 1)
            },
            None => Err(wrap_chars("不正なシグナル番号: '", &o, "'")),
        }
    } else if chars_eq_str(&o, "l") {
        let end = list_end_exec(args, i + 1);
        proof {
            lemma_list_end(sv, i + 1);
        }
        opts.list_signals = true;
        let ghost before = strings_view(opts.list_args@);
        let mut k = i + 1;
        while k < end
            invariant
                i + 1 <= k <= end,
                end <= args.len(),
                sv == strings_view(args@),
                strings_view(opts.list_args@) == before + sv.subrange(i + 1, k as int),
                opts.signal == old(opts).signal,
                opts.list_signals,
                opts.list_table == old(opts).list_table,
                opts.show_help == old(opts).show_help,
                opts.show_version == old(opts).show_version,
                before == strings_view(old(opts).list_args@),
            decreases end - k,
        {
            let ghost cur = strings_view(opts.list_args@);
            opts.list_args.push(args[k].clone());
            proof {
                assert(strings_view(opts.list_args@) =~= cur.push(sv[k as int]));
                assert(sv.subrange(i + 1, k + 1) =~= sv.subrange(i + 1, k as int).push(sv[k as int]));
            }
            k += 1;
        }
        Ok(end)
    } else if chars_eq_str(&o, "L") {
        opts.list_table = true;
        Ok(i + 1)
    } else if chars_eq_str(&o, "s") {
        if i + 1 >= args.len() {
            return Err(String::from_str("オプション '-s' には引数が必要です"));
        }
        assert(sv[i + 1] == args@[i + 1]@);
        match parse_signal(args[i + 1].as_str()) {
            Ok(n) => {
                opts.signal = n;
                Ok(i + 2)
            },
            Err(e) => Err(e),
        }
    } else if o.len() > 1 && o[0] == 's' {
        let rest = slice_chars(&o, 1, o.len());
        assert(rest@ =~= o@.skip(1));
        let rs = string_of(&rest);
        match parse_signal(rs.as_str()) {
            Ok(n) => {
                opts.signal = n;
                Ok(i + 1)
            },
            Err(e) => Err(e),
        }
    } else if chars_eq_str(&o, "n") {
        if i + 1 >= args.len() {
            return Err(String::from_str("オプション '-n' には引数が必要です"));
        }
        assert(sv[i + 1] == args@[i + 1]@);
        let v = chars_of(args[i + 1].as_str());
        match parse_i32(&v) {
            Some(n) => {
                opts.signal = n;
                Ok(i + 2)
            },
            None => Err(join3("不正なシグナル番号: '", args[i + 1].as_str(), "'")),
        }
    } else {
        let os = string_of(&o);
        let up = to_uppercase(os.as_str());
        let uv = chars_of(up.as_str());
        let name = strip_sig(&uv);
        match signal_number(&name) {
            Some(n) => {
                opts.signal = n;
                Ok(i + 1)
            },
            None => Err(wrap_chars("不明なオプション: '-", &o, "'")),
        }
    }
}

/// Reads the command line of `kill` (`args[0]` is the program's name):
/// the settings and the operands, or the message of the first error, as
/// `kill_args_spec` says. `--help` and `--version` only set their flags.
pub fn parse_args(args: &[String]) -> (r: Result<(Options, Vec<String>), String>)
    ensures
        match kill_args_spec(strings_view(args@)) {
            Ok(c) => r is Ok && settings_of(r->Ok_0.0, r->Ok_0.1@, c.rest) == c,
            Err(e) => r is Err && r->Err_0@ == e,
        },
{
    let ghost sv = strings_view(args@);
    let ghost start = KillSettings { signal: 15, list_signals: false, list_table: false, list_args: Seq::empty(),
        show_help: false, show_version: false, targets: Seq::empty(), rest: false };
    let mut opts = Options {
        signal: 15,
        list_signals: false,
        list_table: false,
        list_args: Vec::new(),
        show_help: false,
        show_version: false,
    };
    let mut targets: Vec<String> = Vec::new();
    let mut rest = false;
    proof {
        assert(strings_view(opts.list_args@) =~= Seq::<Seq<char>>::empty());
        assert(strings_view(targets@) =~= Seq::<Seq<char>>::empty());
        assert(settings_of(opts, targets@, rest) == start);
    }
    if args.len() == 0 {
        return Ok((opts, targets));
    }
    let mut i: usize = 1;
    while i < args.len()
        invariant
            1 <= i <= args.len(),
            sv == strings_view(args@),
            kill_args_spec(sv) == kill_args_from(sv, i as int, settings_of(opts, targets@, rest)),
        decreases args.len() - i,
    {
        let a = chars_of(args[i].as_str());
        assert(a@ == sv[i as int]);
        let ghost cur = settings_of(opts, targets@, rest);
        if chars_eq_str(&a, "--") {
            rest = true;
            i += 1;
        } else if rest || !(a.len() > 1 && a[0] == '-') && !starts_with_str(&a, "--") {
            let ghost tv = strings_view(targets@);
            targets.push(args[i].clone());
            proof {
                assert(strings_view(targets@) =~= tv.push(sv[i as int]));
            }
            i += 1;
        } else if starts_with_str(&a, "--") {
            match long_option(&a, &args[i], &mut opts) {
                Ok(()) => {},
                Err(e) => {
                    return Err(e);
                },
            }
            proof {
                assert(settings_of(opts, targets@, rest) == KillSettings { targets: cur.targets, rest: cur.rest,
                    ..settings_of(opts, Seq::empty(), false) });
            }
            i += 1;
        } else {
            match short_option(args, i, &mut opts) {
                Ok(next) => {
                    proof {
                        assert(settings_of(opts, targets@, rest) == KillSettings { targets: cur.targets, rest: cur.rest,
                            ..settings_of(opts, Seq::empty(), false) });
                    }
                    i = next;
                },
                Err(e) => {
                    return Err(e);
                },
            }
        }
    }
    Ok((opts, targets))
}

} // verus!
