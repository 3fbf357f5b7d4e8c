//! The library side of `paste`: its command line, its list of delimiters,
//! and how the lines of its inputs are merged, side by side or one input
//! after another.
use vstd::prelude::*;
use crate::text::{chars_of, string_of, slice_chars, push_char, push_chars, chars_eq_str, starts_with_str, is_prefix};
use crate::find::expression::strings_view;
use crate::join::args::push_rest;

verus! {

/// The delimiters of `-d LIST`: `\n`, `\t`, `\\` and `\0` (no delimiter)
/// escapes, `\x` standing for `x`, a final `\` for itself; a tab when the
/// list is empty.
pub open spec fn delimiters_from(s: Seq<char>, i: int) -> Seq<char>
    decreases s.len() - i,
{
    if i < 0 || i >= s.len() {
        Seq::empty()
    } else if s[i] == '\\' {
        if i + 1 >= s.len() {
            seq!['\\']
        } else {
            let c = s[i + 1];
            seq![if c == 'n' { '\n' } else if c == 't' { '\t' } else if c == '0' { '\0' } else { c }] + delimiters_from(s, i + 2)
        }
    } else {
        seq![s[i]] + delimiters_from(s, i + 1)
    }
}

pub open spec fn delimiters_spec(s: Seq<char>) -> Seq<char> {
    let d = delimiters_from(s, 0);
    if d.len() == 0 { seq!['\t'] } else { d }
}

proof fn lemma_delimiters_shift(p: Seq<char>, rest: Seq<char>, i: int)
    requires
        0 <= i,
    ensures
        delimiters_from(p + rest, p.len() + i) == delimiters_from(rest, i),
    decreases rest.len() - i,
{
    let s = p + rest;
    let j = p.len() + i;
    if i < rest.len() {
        assert(s[j] == rest[i]);
        if rest[i] == '\\' && i + 1 < rest.len() {
            assert(s[j + 1] == rest[i + 1]);
            lemma_delimiters_shift(p, rest, i + 2);
        } else if rest[i] != '\\' {
            lemma_delimiters_shift(p, rest, i + 1);
        }
    }
}

/// The list of `-d` read one piece at a time: `\n` is a newline, `\t` a
/// tab, `\0` the NUL character, `\\` a backslash and `\x` any other `x`;
/// an unescaped character stands for itself, and the rest is read alone.
pub proof fn lemma_delimiter_escapes(c: char, rest: Seq<char>)
    ensures
        delimiters_from(seq!['\\', c] + rest, 0) == seq![
            if c == 'n' { '\n' } else if c == 't' { '\t' } else if c == '0' { '\0' } else { c }
        ] + delimiters_from(rest, 0),
        c != '\\' ==> delimiters_from(seq![c] + rest, 0) == seq![c] + delimiters_from(rest, 0),
        delimiters_from(seq!['\\'], 0) == seq!['\\'],
{
    lemma_delimiters_shift(seq!['\\', c], rest, 0);
    lemma_delimiters_shift(seq![c], rest, 0);
    assert((seq!['\\', c] + rest)[0] == '\\');
    assert((seq!['\\', c] + rest)[1] == c);
    assert((seq![c] + rest)[0] == c);
}

/// The delimiters of `-d LIST`.
pub fn parse_delimiters(s: &str) -> (r: Vec<char>)
    ensures
        r@ == delimiters_spec(s@),
{
    let v = chars_of(s);
    let mut r: Vec<char> = Vec::new();
    let mut i: usize = 0;
    while i < v.len()
        invariant
            i <= v.len(),
            v@ == s@,
            delimiters_from(v@, 0) == r@ + delimiters_from(v@, i as int),
        decreases v.len() - i,
    {
        let ghost before = r@;
        if v[i] == '\\' {
            if i + 1 >= v.len() {
                r.push('\\');
                proof {
                    assert(r@ =~= before + delimiters_from(v@, i as int));
                    assert(delimiters_from(v@, (i + 1) as int) =~= Seq::<char>::empty());
                }
                i += 1;
            } else {
                let c = v[i + 1];
                r.push(if c == 'n' { '\n' } else if c == 't' { '\t' } else if c == '0' { '\0' } else { c });
                proof {
                    assert(before + delimiters_from(v@, i as int) =~= r@ + delimiters_from(v@, i + 2));
                }
                i += 2;
            }
        } else {
            r.push(v[i]);
            proof {
                assert(before + delimiters_from(v@, i as int) =~= r@ + delimiters_from(v@, i + 1));
            }
            i += 1;
        }
    }
    proof {
        assert(r@ + Seq::<char>::empty() =~= r@);
    }
    if r.len() == 0 {
        r.push('\t');
        proof {
            assert(r@ =~= seq!['\t']);
        }
    }
    r
}

/// The settings of `paste`, the operands still to be expanded as
/// patterns.
#[derive(Debug)]
pub struct Config {
    pub files: Vec<String>,
    pub delimiters: Vec<char>,
    pub serial: bool,
    pub zero_terminated: bool,
    pub show_help: bool,
    pub show_version: bool,
}

/// The settings as values.
pub struct PasteSettings {
    pub files: Seq<Seq<char>>,
    pub delimiters: Seq<char>,
    pub serial: bool,
    pub zero_terminated: bool,
    pub show_help: bool,
    pub show_version: bool,
    pub has_delimiter: bool,
}

/// A cluster of short options `chars[j..]` of the argument at `i`.
pub open spec fn paste_cluster(args: Seq<Seq<char>>, i: int, chars: Seq<char>, j: int, c: PasteSettings) -> Result<(PasteSettings, int), Seq<char>>
    decreases chars.len() - j,
{
    if j < 0 || j >= chars.len() {
        Ok((c, i))
    } else {
        let x = chars[j];
        if x == 's' {
            paste_cluster(args, i, chars, j + 1, PasteSettings { serial: true, ..c })
        } else if x == 'z' {
            paste_cluster(args, i, chars, j + 1, PasteSettings { zero_terminated: true, ..c })
        } else if x == 'd' {
            let rest = chars.skip(j + 1);
            if rest.len() > 0 {
                Ok((PasteSettings { delimiters: delimiters_spec(rest), has_delimiter: true, ..c }, i))
            } else if i + 1 >= args.len() {
                Err("-d にはデリミタが必要です"@)
            } else {
                Ok((PasteSettings { delimiters: delimiters_spec(args[i + 1]), has_delimiter: true, ..c }, i + 1))
            }
        } else {
            Err("不明なオプション: -"@ + seq![x])
        }
    }
}

/// The settings from the argument at `i` on; `--help` and `--version`
/// stop the reading.
pub open spec fn paste_args_from(args: Seq<Seq<char>>, i: int, c: PasteSettings) -> Result<PasteSettings, Seq<char>>
    decreases args.len() - i,
{
    if i < 0 || i >= args.len() {
        Ok(c)
    } else {
        let a = args[i];
        if a == "--help"@ {
            Ok(PasteSettings { show_help: true, ..c })
        } else if a == "--version"@ {
            Ok(PasteSettings { show_version: true, ..c })
        } else if a == "-d"@ || a == "--delimiters"@ {
            if i + 1 >= args.len() {
                Err("-d にはデリミタが必要です"@)
            } else {
                paste_args_from(args, i + 2, PasteSettings { delimiters: delimiters_spec(args[i + 1]), has_delimiter: true, ..c })
            }
        } else if is_prefix("--delimiters="@, a) {
            paste_args_from(args, i + 1, PasteSettings { delimiters: delimiters_spec(a.skip(13)), has_delimiter: true, ..c })
        } else if is_prefix("-d"@, a) && a.len() > 2 {
            paste_args_from(args, i + 1, PasteSettings { delimiters: delimiters_spec(a.skip(2)), has_delimiter: true, ..c })
        } else if a == "-s"@ || a == "--serial"@ {
            paste_args_from(args, i + 1, PasteSettings { serial: true, ..c })
        } else if a == "-z"@ || a == "--zero-terminated"@ {
            paste_args_from(args, i + 1, PasteSettings { zero_terminated: true, ..c })
        } else if a == "--"@ {
            Ok(PasteSettings { files: c.files + args.skip(i + 1), ..c })
        } else if a.len() > 1 && a[0] == '-' {
            match paste_cluster(args, i, a.skip(1), 0, c) {
                Err(e) => Err(e),
                Ok((c2, last)) => if i <= last && last < args.len() { paste_args_from(args, last + 1, c2) } else { Err(Seq::empty()) },
            }
        } else {
            paste_args_from(args, i + 1, PasteSettings { files: c.files.push(a), ..c })
        }
    }
}

/// What the command line of `paste` gives (without the program name):
/// the settings, `-` when there is no operand and a tab when no `-d`.
pub open spec fn paste_args_spec(args: Seq<Seq<char>>) -> Result<PasteSettings, Seq<char>> {
    let start = PasteSettings { files: Seq::empty(), delimiters: seq!['\t'], serial: false, zero_terminated: false,
        show_help: false, show_version: false, has_delimiter: false };
    match paste_args_from(args, 0, start) {
        Err(e) => Err(e),
        Ok(c) => if c.show_help || c.show_version {
            Ok(c)
        } else {
            Ok(PasteSettings {
                files: if c.files.len() == 0 { seq!["-"@] } else { c.files },
                delimiters: if c.has_delimiter { c.delimiters } else { seq!['\t'] },
                ..c
            })
        },
    }
}

pub proof fn lemma_paste_cluster(args: Seq<Seq<char>>, i: int, chars: Seq<char>, j: int, c: PasteSettings)
    ensures
        match paste_cluster(args, i, chars, j, c) {
            Ok((_, last)) => i <= last <= i + 1 && (last == i + 1 ==> i + 1 < args.len()),
            Err(_) => true,
        },
    decreases chars.len() - j,
{
    if 0 <= j < chars.len() {
        let x = chars[j];
        if x == 's' {
            lemma_paste_cluster(args, i, chars, j + 1, PasteSettings { serial: true, ..c });
        } else if x == 'z' {
            lemma_paste_cluster(args, i, chars, j + 1, PasteSettings { zero_terminated: true, ..c });
        }
    }
}


/// The settings that `c` holds, with whether a `-d` was read.
pub open spec fn settings_of(c: Config, has_delimiter: bool) -> PasteSettings {
    PasteSettings {
        files: strings_view(c.files@),
        delimiters: c.delimiters@,
        serial: c.serial,
        zero_terminated: c.zero_terminated,
        show_help: c.show_help,
        show_version: c.show_version,
        has_delimiter: has_delimiter,
    }
}

/// Whether `c` holds the settings `s`.
pub open spec fn holds_settings(c: Config, s: PasteSettings) -> bool {
    &&& strings_view(c.files@) == s.files
    &&& c.delimiters@ == s.delimiters
    &&& c.serial == s.serial
    &&& c.zero_terminated == s.zero_terminated
    &&& c.show_help == s.show_help
    &&& c.show_version == s.show_version
}

fn missing_delimiter() -> (r: String)
    ensures
        r@ == "-d にはデリミタが必要です"@,
{
    String::from_str("-d にはデリミタが必要です")
}

/// Reads the cluster of short options of the argument at `i`, whose
/// characters are `a`; the index of the last argument it used.
fn read_cluster(args: &[String], i: usize, a: &Vec<char>, config: &mut Config, has_delimiter: &mut bool) -> (r: Result<usize, String>)
    requires
        i < args.len(),
        a.len() >= 1,
    ensures
        match paste_cluster(strings_view(args@), i as int, a@.skip(1), 0, settings_of(*old(config), *old(has_delimiter))) {
            Ok((c, last)) => r is Ok && r->Ok_0 == last && settings_of(*final(config), *final(has_delimiter)) == c,
            Err(e) => r is Err && r->Err_0@ == e,
        },
        final(config).show_help == old(config).show_help,
        final(config).show_version == old(config).show_version,
{
    let ghost sv = strings_view(args@);
    let ghost chars = a@.skip(1);
    let ghost want = paste_cluster(sv, i as int, chars, 0, settings_of(*config, *has_delimiter));
    assert(want == paste_cluster(sv, i as int, a@.skip(1), 0, settings_of(*old(config), *old(has_delimiter))));
    let mut k: usize = 1;
    while k < a.len()
        invariant
            1 <= k <= a.len(),
            i < args.len(),
            sv == strings_view(args@),
            chars == a@.skip(1),
            config.show_help == old(config).show_help,
            config.show_version == old(config).show_version,
            want == paste_cluster(strings_view(args@), i as int, a@.skip(1), 0, settings_of(*old(config), *old(has_delimiter))),
            want == paste_cluster(sv, i as int, chars, k - 1, settings_of(*config, *has_delimiter)),
        decreases a.len() - k,
    {
        let x = a[k];
        assert(chars[k - 1] == x);
        let ghost cur = settings_of(*config, *has_delimiter);
        if x == 's' {
            config.serial = true;
        } else if x == 'z' {
            config.zero_terminated = true;
        } else if x == 'd' {
            if k + 1 < a.len() {
                let rest = slice_chars(a, k + 1, a.len());
                assert(rest@ =~= chars.skip(k as int));
                let rs = string_of(&rest);
                config.delimiters = parse_delimiters(rs.as_str());
                *has_delimiter = true;
                assert(want == Ok::<(PasteSettings, int), Seq<char>>((PasteSettings { delimiters: delimiters_spec(chars.skip(k as int)), has_delimiter: true, ..cur }, i as int)));
                assert(settings_of(*config, *has_delimiter) == PasteSettings { delimiters: delimiters_spec(chars.skip(k as int)), has_delimiter: true, ..cur });
                return Ok(i);
            } else if i + 1 >= args.len() {
                assert(chars.skip(k as int).len() == 0);
                let m = missing_delimiter();
                assert(want == paste_cluster(sv, i as int, chars, k - 1, settings_of(*config, *has_delimiter)));
                assert(want == Err::<(PasteSettings, int), Seq<char>>("-d にはデリミタが必要です"@));
                return Err(m);
            } else {
                assert(chars.skip(k as int).len() == 0);
                assert(sv[i + 1] == args@[i + 1]@);
                config.delimiters = parse_delimiters(args[i + 1].as_str());
                *has_delimiter = true;
                return Ok(i + 1);
            }
        } else {
            let mut m = String::from_str("不明なオプション: -");
            push_char(&mut m, x);
            proof {
                assert(m@ =~= "不明なオプション: -"@ + seq![x]);
            }
            return Err(m);
        }
        k += 1;
    }
    Ok(i)
}

/// Reads the command line of `paste` (without the program name): the
/// settings, `-` when no operand is given and a tab when no `-d`, or the
/// message of the first error, as `paste_args_spec` says. With `--help` or
/// `--version` the reading stops there and the settings say so. Operands
/// are kept as they were written.
pub fn parse_args(args: &[String]) -> (r: Result<Config, String>)
    ensures
        match paste_args_spec(strings_view(args@)) {
            Ok(c) => r is Ok && holds_settings(r->Ok_0, c),
            Err(e) => r is Err && r->Err_0@ == e,
        },
{
    let ghost sv = strings_view(args@);
    let ghost start = PasteSettings { files: Seq::empty(), delimiters: seq!['\t'], serial: false, zero_terminated: false,
        show_help: false, show_version: false, has_delimiter: false };
    let mut config = Config {
        files: Vec::new(),
        delimiters: vec!['\t'],
        serial: false,
        zero_terminated: false,
        show_help: false,
        show_version: false,
    };
    let mut has_delimiter = false;
    proof {
        assert(settings_of(config, has_delimiter).files =~= Seq::<Seq<char>>::empty());
        assert(config.delimiters@ =~= seq!['\t']);
        assert(settings_of(config, has_delimiter) == start);
    }
    let mut i: usize = 0;
    while i < args.len()
        invariant
            i <= args.len(),
            sv == strings_view(args@),
            start == (PasteSettings { files: Seq::empty(), delimiters: seq!['\t'], serial: false, zero_terminated: false,
                show_help: false, show_version: false, has_delimiter: false }),
            !config.show_help && !config.show_version,
            paste_args_from(sv, 0, start) == paste_args_from(sv, i as int, settings_of(config, has_delimiter)),
        decreases args.len() - i,
    {
        let a = chars_of(args[i].as_str());
        assert(a@ == sv[i as int]);
        if chars_eq_str(&a, "--help") {
            config.show_help = true;
            return Ok(config);
        } else if chars_eq_str(&a, "--version") {
            config.show_version = true;
            return Ok(config);
        } else if chars_eq_str(&a, "-d") || chars_eq_str(&a, "--delimiters") {
            if i + 1 >= args.len() {
                return Err(missing_delimiter());
            }
            assert(sv[i + 1] == args@[i + 1]@);
            config.delimiters = parse_delimiters(args[i + 1].as_str());
            has_delimiter = true;
            i += 2;
        } else if starts_with_str(&a, "--delimiters=") {
            proof { reveal_strlit("--delimiters="); }
            let rest = slice_chars(&a, 13, a.len());
            assert(rest@ =~= a@.skip(13));
            let rs = string_of(&rest);
            config.delimiters = parse_delimiters(rs.as_str());
            has_delimiter = true;
            i += 1;
        } else if starts_with_str(&a, "-d") && a.len() > 2 {
            proof { reveal_strlit("-d"); }
            let rest = slice_chars(&a, 2, a.len());
            assert(rest@ =~= a@.skip(2));
            let rs = string_of(&rest);
            config.delimiters = parse_delimiters(rs.as_str());
            has_delimiter = true;
            i += 1;
        } else if chars_eq_str(&a, "-s") || chars_eq_str(&a, "--serial") {
            config.serial = true;
            i += 1;
        } else if chars_eq_str(&a, "-z") || chars_eq_str(&a, "--zero-terminated") {
            config.zero_terminated = true;
            i += 1;
        } else if chars_eq_str(&a, "--") {
            let ghost cur = settings_of(config, has_delimiter);
            push_rest(&mut config.files, args, i + 1);
            proof {
                assert(settings_of(config, has_delimiter) == PasteSettings { files: cur.files + sv.skip(i + 1), ..cur });
            }
            i = args.len();
        } else if a.len() > 1 && a[0] == '-' {
            proof { lemma_paste_cluster(sv, i as int, a@.skip(1), 0, settings_of(config, has_delimiter)); }
            match read_cluster(args, i, &a, &mut config, &mut has_delimiter) {
                Err(e) => {
                    return Err(e);
                },
                Ok(last) => {
                    i = last + 1;
                },
            }
        } else {
            let ghost before = strings_view(config.files@);
            config.files.push(args[i].clone());
            proof {
                assert(strings_view(config.files@) =~= before.push(sv[i as int]));
            }
            i += 1;
        }
    }
    if config.files.len() == 0 {
        config.files.push(String::from_str("-"));
        proof {
            assert(strings_view(config.files@) =~= seq!["-"@]);
        }
    }
    if !has_delimiter {
        config.delimiters = vec!['\t'];
        proof {
            assert(config.delimiters@ =~= seq!['\t']);
        }
    }
    Ok(config)
}

} // verus!

verus! {

/// One operand of `paste` as the merge sees it: the standard input (which
/// all `-` operands share), the records of a file, or a file that could not
/// be opened.
pub enum Input {
    Stdin,
    Lines(Vec<String>),
    Unreadable,
}

/// The same, as values.
pub enum InputView {
    Stdin,
    Lines(Seq<Seq<char>>),
    Unreadable,
}

impl View for Input {
    type V = InputView;

    open spec fn view(&self) -> InputView {
        match self {
            Input::Stdin => InputView::Stdin,
            Input::Lines(v) => InputView::Lines(strings_view(v@)),
            Input::Unreadable => InputView::Unreadable,
        }
    }
}

pub open spec fn inputs_view(v: Seq<Input>) -> Seq<InputView> {
    v.map_values(|i: Input| i@)
}

/// A record without the line feeds, carriage returns and NULs at its end.
pub open spec fn terminators_trimmed(s: Seq<char>) -> Seq<char>
    decreases s.len(),
{
    if s.len() > 0 && (s.last() == '\n' || s.last() == '\r' || s.last() == '\0') {
        terminators_trimmed(s.drop_last())
    } else {
        s
    }
}

/// How many of the first `c` operands are the standard input.
pub open spec fn stdin_before(ins: Seq<InputView>, c: int) -> nat
    decreases c,
{
    if c <= 0 {
        0
    } else {
        stdin_before(ins, c - 1) + if ins[c - 1] is Stdin { 1nat } else { 0nat }
    }
}

/// What the operand `c` gives in row `r`: record `r` of its file; for the
/// standard input, shared by `m` operands of which `c` comes as the `j`-th,
/// the record `r * m + j` of the standard input; nothing once its input is
/// exhausted or when it could not be opened.
pub open spec fn cell(ins: Seq<InputView>, stdin: Seq<Seq<char>>, r: nat, c: int) -> Option<Seq<char>> {
    match ins[c] {
        InputView::Lines(l) => if r < l.len() { Some(l[r as int]) } else { None },
        InputView::Stdin => {
            let k = r * stdin_before(ins, ins.len() as int) + stdin_before(ins, c);
            if k < stdin.len() { Some(stdin[k as int]) } else { None }
        },
        InputView::Unreadable => None,
    }
}

/// The delimiter put before the item after the `i`-th one: the list is
/// used in turn, and `\0` puts nothing.
pub open spec fn delimiter_text(d: Seq<char>, i: int) -> Seq<char> {
    let x = d[i % (d.len() as int)];
    if x == '\0' { Seq::empty() } else { seq![x] }
}

/// The first `c` columns of row `r`.
pub open spec fn row_text(ins: Seq<InputView>, stdin: Seq<Seq<char>>, d: Seq<char>, r: nat, c: int) -> Seq<char>
    decreases c,
{
    if c <= 0 {
        Seq::empty()
    } else {
        row_text(ins, stdin, d, r, c - 1)
            + (if c >= 2 { delimiter_text(d, c - 2) } else { Seq::empty() })
            + match cell(ins, stdin, r, c - 1) {
                Some(x) => terminators_trimmed(x),
                None => Seq::empty(),
            }
    }
}

/// Whether one of the first `c` operands gives something in row `r`.
pub open spec fn row_has_data(ins: Seq<InputView>, stdin: Seq<Seq<char>>, r: nat, c: int) -> bool
    decreases c,
{
    c > 0 && (row_has_data(ins, stdin, r, c - 1) || cell(ins, stdin, r, c - 1) is Some)
}

/// The most records of a file among the first `c` operands.
pub open spec fn longest(ins: Seq<InputView>, c: int) -> nat
    decreases c,
{
    if c <= 0 {
        0
    } else {
        let n = match ins[c - 1] {
            InputView::Lines(l) => l.len(),
            _ => 0,
        };
        let before = longest(ins, c - 1);
        if n > before { n } else { before }
    }
}

/// A row past which no operand gives anything.
pub open spec fn rows_bound(ins: Seq<InputView>, stdin: Seq<Seq<char>>) -> nat {
    longest(ins, ins.len() as int) + stdin.len()
}

/// The rows from `r` on, each ended by `term`, up to the first row in
/// which no operand gives anything.
pub open spec fn parallel_from(ins: Seq<InputView>, stdin: Seq<Seq<char>>, d: Seq<char>, term: char, r: nat) -> Seq<char>
    decreases rows_bound(ins, stdin) - r,
{
    if r < rows_bound(ins, stdin) && row_has_data(ins, stdin, r, ins.len() as int) {
        row_text(ins, stdin, d, r, ins.len() as int).push(term) + parallel_from(ins, stdin, d, term, r + 1)
    } else {
        Seq::empty()
    }
}

/// The line ending of the output: NUL with `-z`, else a line feed.
pub open spec fn terminator(zero_terminated: bool) -> char {
    if zero_terminated { '\0' } else { '\n' }
}

pub proof fn lemma_stdin_before_grows(ins: Seq<InputView>, c: int, e: int)
    requires
        c <= e,
    ensures
        stdin_before(ins, c) <= stdin_before(ins, e),
    decreases e - c,
{
    if c < e {
        lemma_stdin_before_grows(ins, c, e - 1);
    }
}

proof fn lemma_longest(ins: Seq<InputView>, c: int, e: int)
    requires
        0 <= c < e,
        ins[c] is Lines,
    ensures
        ins[c]->Lines_0.len() <= longest(ins, e),
    decreases e - c,
{
    if c < e - 1 {
        lemma_longest(ins, c, e - 1);
    }
}

/// A row in which some operand gives something lies before `rows_bound`:
/// the bound does not cut the merge short.
pub proof fn lemma_rows_end(ins: Seq<InputView>, stdin: Seq<Seq<char>>, r: nat, c: int)
    requires
        c <= ins.len(),
        row_has_data(ins, stdin, r, c),
    ensures
        r < rows_bound(ins, stdin),
    decreases c,
{
    if row_has_data(ins, stdin, r, c - 1) {
        lemma_rows_end(ins, stdin, r, c - 1);
    } else {
        let col = c - 1;
        match ins[col] {
            InputView::Lines(l) => {
                lemma_longest(ins, col, ins.len() as int);
            },
            InputView::Stdin => {
                let m = stdin_before(ins, ins.len() as int);
                lemma_stdin_before_grows(ins, c, ins.len() as int);
                assert(r <= r * m) by (nonlinear_arith)
                    requires m >= 1;
            },
            InputView::Unreadable => {},
        }
    }
}

/// A record without its trailing line feeds, carriage returns and NULs.
fn trim_terminators(s: &str) -> (r: Vec<char>)
    ensures
        r@ == terminators_trimmed(s@),
{
    let v = chars_of(s);
    let mut end = v.len();
    proof {
        assert(v@.take(v.len() as int) =~= v@);
    }
    while end > 0 && (v[end - 1] == '\n' || v[end - 1] == '\r' || v[end - 1] == '\0')
        invariant
            end <= v.len(),
            terminators_trimmed(v@) == terminators_trimmed(v@.take(end as int)),
        decreases end,
    {
        assert(v@.take(end as int).drop_last() =~= v@.take(end - 1));
        end -= 1;
    }
    slice_chars(&v, 0, end)
}

/// Row `r` of the merge, and whether some operand gave something in it;
/// `m` is the number of operands that read the standard input.
fn paste_row(inputs: &Vec<Input>, stdin: &Vec<String>, delimiters: &Vec<char>, r: usize, m: usize) -> (res: (Vec<char>, bool))
    requires
        delimiters.len() > 0,
        m == stdin_before(inputs_view(inputs@), inputs.len() as int),
    ensures
        res.0@ == row_text(inputs_view(inputs@), strings_view(stdin@), delimiters@, r as nat, inputs.len() as int),
        res.1 == row_has_data(inputs_view(inputs@), strings_view(stdin@), r as nat, inputs.len() as int),
        res.1 ==> r < usize::MAX,
{
    let ghost ins = inputs_view(inputs@);
    let ghost sv = strings_view(stdin@);
    let mut text: Vec<char> = Vec::new();
    let mut any = false;
    let mut rank: usize = 0;
    let mut c: usize = 0;
    while c < inputs.len()
        invariant
            c <= inputs.len(),
            delimiters.len() > 0,
            ins == inputs_view(inputs@),
            ins.len() == inputs.len(),
            sv == strings_view(stdin@),
            m == stdin_before(ins, inputs.len() as int),
            rank == stdin_before(ins, c as int),
            text@ == row_text(ins, sv, delimiters@, r as nat, c as int),
            any == row_has_data(ins, sv, r as nat, c as int),
            any ==> r < usize::MAX,
        decreases inputs.len() - c,
    {
        let ghost before = text@;
        if c > 0 {
            let x = delimiters[(c - 1) % delimiters.len()];
            if x != '\0' {
                text.push(x);
            }
        }
        assert(text@ == before + (if c + 1 >= 2 { delimiter_text(delimiters@, c - 1) } else { Seq::empty() }));
        let ghost mid = text@;
        assert(ins[c as int] == inputs@[c as int]@);
        match &inputs[c] {
            Input::Lines(l) => {
                assert(ins[c as int] == InputView::Lines(strings_view(l@)));
                if r < l.len() {
                    assert(strings_view(l@)[r as int] == l@[r as int]@);
                    let t = trim_terminators(l[r].as_str());
                    let mut k: usize = 0;
                    while k < t.len()
                        invariant
                            k <= t.len(),
                            text@ == mid + t@.take(k as int),
                        decreases t.len() - k,
                    {
                        text.push(t[k]);
                        assert(t@.take(k + 1) =~= t@.take(k as int).push(t[k as int]));
                        k += 1;
                    }
                    assert(t@.take(t.len() as int) =~= t@);
                    any = true;
                    assert(cell(ins, sv, r as nat, c as int) == Some(strings_view(l@)[r as int]));
                } else {
                    assert(cell(ins, sv, r as nat, c as int) is None);
                }
            },
            Input::Stdin => {
                proof {
                    lemma_stdin_before_grows(ins, c + 1, inputs.len() as int);
                }
                assert(ins[c as int] == InputView::Stdin);
                let idx = match r.checked_mul(m) {
                    Some(x) => x.checked_add(rank),
                    None => None,
                };
                assert(idx is None ==> r * m + rank > usize::MAX);
                assert(idx is Some ==> idx->0 == r * m + rank);
                assert(sv.len() == stdin.len());
                match idx {
                    Some(k) => {
                        if k < stdin.len() {
                            assert(r <= r * m) by (nonlinear_arith)
                                requires m >= 1;
                            assert(sv[k as int] == stdin@[k as int]@);
                            let t = trim_terminators(stdin[k].as_str());
                            let mut j: usize = 0;
                            while j < t.len()
                                invariant
                                    j <= t.len(),
                                    text@ == mid + t@.take(j as int),
                                decreases t.len() - j,
                            {
                                text.push(t[j]);
                                assert(t@.take(j + 1) =~= t@.take(j as int).push(t[j as int]));
                                j += 1;
                            }
                            assert(t@.take(t.len() as int) =~= t@);
                            any = true;
                            assert(cell(ins, sv, r as nat, c as int) == Some(sv[k as int]));
                        } else {
                            assert(cell(ins, sv, r as nat, c as int) is None);
                        }
                    },
                    None => {
                        assert(cell(ins, sv, r as nat, c as int) is None);
                    },
                }
                rank += 1;
            },
            Input::Unreadable => {
                assert(ins[c as int] == InputView::Unreadable);
            },
        }
        assert(text@ == mid + match cell(ins, sv, r as nat, c as int) {
            Some(x) => terminators_trimmed(x),
            None => Seq::<char>::empty(),
        });
        assert(any == (row_has_data(ins, sv, r as nat, c as int) || cell(ins, sv, r as nat, c as int) is Some));
        c += 1;
    }
    (text, any)
}

/// The number of operands that read the standard input.
fn count_stdin(inputs: &Vec<Input>) -> (m: usize)
    ensures
        m == stdin_before(inputs_view(inputs@), inputs.len() as int),
{
    let ghost ins = inputs_view(inputs@);
    let mut m: usize = 0;
    let mut c: usize = 0;
    while c < inputs.len()
        invariant
            c <= inputs.len(),
            ins == inputs_view(inputs@),
            m == stdin_before(ins, c as int),
            m <= c,
        decreases inputs.len() - c,
    {
        assert(ins[c as int] == inputs@[c as int]@);
        if let Input::Stdin = inputs[c] {
            m += 1;
        }
        c += 1;
    }
    m
}

/// `paste` without `-s`: row after row, the next record of each operand,
/// with the delimiters between them in turn and without their line
/// endings, until a row in which every operand is exhausted. All `-`
/// operands share the standard input, whose records `stdin` they take in
/// turn; `inputs` are the operands in order.
pub fn paste_parallel(config: &Config, inputs: &Vec<Input>, stdin: &Vec<String>) -> (out: String)
    requires
        config.delimiters.len() > 0,
    ensures
        out@ == parallel_from(inputs_view(inputs@), strings_view(stdin@), config.delimiters@, terminator(config.zero_terminated), 0),
{
    let ghost ins = inputs_view(inputs@);
    let ghost sv = strings_view(stdin@);
    let ghost d = config.delimiters@;
    let term = if config.zero_terminated { '\0' } else { '\n' };
    let m = count_stdin(inputs);
    let mut out = String::new();
    let mut r: usize = 0;
    loop
        invariant
            config.delimiters.len() > 0,
            ins == inputs_view(inputs@),
            sv == strings_view(stdin@),
            d == config.delimiters@,
            term == terminator(config.zero_terminated),
            m == stdin_before(ins, inputs.len() as int),
            r <= rows_bound(ins, sv),
            out@ + parallel_from(ins, sv, d, term, r as nat) == parallel_from(ins, sv, d, term, 0),
        decreases rows_bound(ins, sv) - r,
    {
        let (text, any) = paste_row(inputs, stdin, &config.delimiters, r, m);
        if !any {
            proof {
                assert(out@ + Seq::<char>::empty() =~= out@);
            }
            return out;
        }
        proof {
            lemma_rows_end(ins, sv, r as nat, inputs.len() as int);
        }
        let ghost before = out@;
        push_chars(&mut out, &text);
        push_char(&mut out, term);
        proof {
            assert(out@ =~= before + text@.push(term));
            assert(before + parallel_from(ins, sv, d, term, r as nat)
                =~= out@ + parallel_from(ins, sv, d, term, (r + 1) as nat));
        }
        r += 1;
    }
}

} // verus!

verus! {

/// The records that operand `c` gives with `-s`: those of its file; the
/// whole standard input for the first `-`, nothing for a later one; nothing
/// for a file that could not be opened.
pub open spec fn serial_records(ins: Seq<InputView>, stdin: Seq<Seq<char>>, c: int) -> Seq<Seq<char>> {
    match ins[c] {
        InputView::Lines(l) => l,
        InputView::Stdin => if stdin_before(ins, c) == 0 { stdin } else { Seq::empty() },
        InputView::Unreadable => Seq::empty(),
    }
}

/// The first `i` records without their line endings, with the delimiters
/// between them in turn.
pub open spec fn joined(recs: Seq<Seq<char>>, d: Seq<char>, i: int) -> Seq<char>
    decreases i,
{
    if i <= 0 {
        Seq::empty()
    } else {
        joined(recs, d, i - 1) + (if i >= 2 { delimiter_text(d, i - 2) } else { Seq::empty() })
            + terminators_trimmed(recs[i - 1])
    }
}

/// One output line for the records of an operand, none when it has none.
pub open spec fn serial_block(recs: Seq<Seq<char>>, d: Seq<char>, term: char) -> Seq<char> {
    if recs.len() == 0 {
        Seq::empty()
    } else {
        joined(recs, d, recs.len() as int).push(term)
    }
}

/// `paste -s` on the first `c` operands.
pub open spec fn serial_from(ins: Seq<InputView>, stdin: Seq<Seq<char>>, d: Seq<char>, term: char, c: int) -> Seq<char>
    decreases c,
{
    if c <= 0 {
        Seq::empty()
    } else {
        serial_from(ins, stdin, d, term, c - 1) + serial_block(serial_records(ins, stdin, c - 1), d, term)
    }
}

/// Appends the line of `-s` for the records `recs`.
fn push_block(out: &mut String, recs: &Vec<String>, delimiters: &Vec<char>, term: char)
    requires
        delimiters.len() > 0,
    ensures
        final(out)@ == old(out)@ + serial_block(strings_view(recs@), delimiters@, term),
{
    let ghost rv = strings_view(recs@);
    let ghost start = out@;
    if recs.len() == 0 {
        proof {
            assert(start + Seq::<char>::empty() =~= start);
        }
        return;
    }
    let mut i: usize = 0;
    proof {
        assert(start + Seq::<char>::empty() =~= start);
    }
    while i < recs.len()
        invariant
            i <= recs.len(),
            delimiters.len() > 0,
            rv == strings_view(recs@),
            out@ == start + joined(rv, delimiters@, i as int),
        decreases recs.len() - i,
    {
        let ghost before = out@;
        if i > 0 {
            let x = delimiters[(i - 1) % delimiters.len()];
            if x != '\0' {
                push_char(out, x);
            }
        }
        assert(out@ =~= before + (if i + 1 >= 2 { delimiter_text(delimiters@, i - 1) } else { Seq::empty() }));
        let ghost mid = out@;
        assert(rv[i as int] == recs@[i as int]@);
        let t = trim_terminators(recs[i].as_str());
        push_chars(out, &t);
        proof {
            assert(out@ =~= start + joined(rv, delimiters@, i + 1));
        }
        i += 1;
    }
    let ghost done = out@;
    push_char(out, term);
    proof {
        assert(out@ =~= start + joined(rv, delimiters@, recs.len() as int).push(term));
    }
}

/// `paste -s`: for each operand in order, all its records on one line,
/// without their line endings and with the delimiters between them in
/// turn; an operand with no records gives no line. The first `-` operand
/// reads the whole standard input `stdin`, a later one finds it exhausted.
pub fn paste_serial(config: &Config, inputs: &Vec<Input>, stdin: &Vec<String>) -> (out: String)
    requires
        config.delimiters.len() > 0,
    ensures
        out@ == serial_from(inputs_view(inputs@), strings_view(stdin@), config.delimiters@,
            terminator(config.zero_terminated), inputs.len() as int),
{
    let ghost ins = inputs_view(inputs@);
    let ghost sv = strings_view(stdin@);
    let ghost d = config.delimiters@;
    let term = if config.zero_terminated { '\0' } else { '\n' };
    let mut out = String::new();
    let mut stdin_seen = false;
    let mut c: usize = 0;
    let empty: Vec<String> = Vec::new();
    proof {
        assert(strings_view(empty@) =~= Seq::<Seq<char>>::empty());
    }
    while c < inputs.len()
        invariant
            c <= inputs.len(),
            config.delimiters.len() > 0,
            ins == inputs_view(inputs@),
            ins.len() == inputs.len(),
            sv == strings_view(stdin@),
            d == config.delimiters@,
            term == terminator(config.zero_terminated),
            strings_view(empty@) == Seq::<Seq<char>>::empty(),
            stdin_seen == (stdin_before(ins, c as int) > 0),
            out@ == serial_from(ins, sv, d, term, c as int),
        decreases inputs.len() - c,
    {
        assert(ins[c as int] == inputs@[c as int]@);
        match &inputs[c] {
            Input::Lines(l) => {
                push_block(&mut out, l, &config.delimiters, term);
            },
            Input::Stdin => {
                if stdin_seen {
                    push_block(&mut out, &empty, &config.delimiters, term);
                } else {
                    push_block(&mut out, stdin, &config.delimiters, term);
                }
                stdin_seen = true;
            },
            Input::Unreadable => {
                push_block(&mut out, &empty, &config.delimiters, term);
            },
        }
        c += 1;
    }
    out
}

} // verus!
