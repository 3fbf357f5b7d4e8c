//! The command line of `ls`: what each option letter and long option
//! means, and the value of `--block-size`.
use vstd::prelude::*;
use crate::text::{chars_of, chars_eq_str, str_eq, parse_int_spec, parse_unsigned, slice_chars, string_of, push_char,
    to_uppercase, uppercase_of, wrap_chars, find_char, first_index_of, join3};
use crate::less::layout::{is_space, is_space_char};

verus! {

/// When names are coloured.
#[derive(Debug, Clone, Copy, PartialEq, Eq, Structural)]
pub enum ColorMode {
    Never,
    Auto,
    Always,
}

/// Which time a long listing shows and sorts by.
#[derive(Debug, Clone, Copy, PartialEq, Eq, Structural)]
pub enum TimeType {
    Modification,
    Access,
    Change,
}

/// How entries are laid out.
#[derive(Debug, Clone, Copy, PartialEq, Eq, Structural)]
pub enum OutputFormat {
    Columns,
    Long,
    OnePerLine,
    CommaDelim,
    Across,
}

/// What one letter of a cluster of short options sets.
#[derive(Debug, Clone, Copy, PartialEq, Eq, Structural)]
pub enum ShortFlag {
    All,
    AlmostAll,
    Format(OutputFormat),
    Time(TimeType),
    Directory,
    Classify,
    NoSort,
    LongHideOwner,
    FollowLinks,
    Inode,
    LongNumeric,
    LongHideGroup,
    NonPrintable,
    Recursive,
    Reverse,
    SizeSort,
    ShowBlocks,
    TimeSort,
    Escape,
    HumanReadable,
    QuoteName,
}

/// What a letter means, if it is an option.
pub open spec fn short_flag_spec(c: char) -> Option<ShortFlag> {
    if c == 'a' { Some(ShortFlag::All) }
    else if c == 'A' { Some(ShortFlag::AlmostAll) }
    else if c == 'C' { Some(ShortFlag::Format(OutputFormat::Columns)) }
    else if c == 'c' { Some(ShortFlag::Time(TimeType::Change)) }
    else if c == 'd' { Some(ShortFlag::Directory) }
    else if c == 'F' { Some(ShortFlag::Classify) }
    else if c == 'f' { Some(ShortFlag::NoSort) }
    else if c == 'g' { Some(ShortFlag::LongHideOwner) }
    else if c == 'H' { Some(ShortFlag::FollowLinks) }
    else if c == 'i' { Some(ShortFlag::Inode) }
    else if c == 'L' { Some(ShortFlag::FollowLinks) }
    else if c == 'l' { Some(ShortFlag::Format(OutputFormat::Long)) }
    else if c == 'm' { Some(ShortFlag::Format(OutputFormat::CommaDelim)) }
    else if c == 'n' { Some(ShortFlag::LongNumeric) }
    else if c == 'o' { Some(ShortFlag::LongHideGroup) }
    else if c == 'q' { Some(ShortFlag::NonPrintable) }
    else if c == 'R' { Some(ShortFlag::Recursive) }
    else if c == 'r' { Some(ShortFlag::Reverse) }
    else if c == 'S' { Some(ShortFlag::SizeSort) }
    else if c == 's' { Some(ShortFlag::ShowBlocks) }
    else if c == 't' { Some(ShortFlag::TimeSort) }
    else if c == 'u' { Some(ShortFlag::Time(TimeType::Access)) }
    else if c == 'U' { Some(ShortFlag::NoSort) }
    else if c == 'x' { Some(ShortFlag::Format(OutputFormat::Across)) }
    else if c == '1' { Some(ShortFlag::Format(OutputFormat::OnePerLine)) }
    else if c == 'b' { Some(ShortFlag::Escape) }
    else if c == 'h' { Some(ShortFlag::HumanReadable) }
    else if c == 'Q' { Some(ShortFlag::QuoteName) }
    else { None }
}

/// What a letter means, if it is an option.
pub fn short_flag(c: char) -> (r: Option<ShortFlag>)
    ensures
        r == short_flag_spec(c),
{
    if c == 'a' { Some(ShortFlag::All) }
    else if c == 'A' { Some(ShortFlag::AlmostAll) }
    else if c == 'C' { Some(ShortFlag::Format(OutputFormat::Columns)) }
    else if c == 'c' { Some(ShortFlag::Time(TimeType::Change)) }
    else if c == 'd' { Some(ShortFlag::Directory) }
    else if c == 'F' { Some(ShortFlag::Classify) }
    else if c == 'f' { Some(ShortFlag::NoSort) }
    else if c == 'g' { Some(ShortFlag::LongHideOwner) }
    else if c == 'H' { Some(ShortFlag::FollowLinks) }
    else if c == 'i' { Some(ShortFlag::Inode) }
    else if c == 'L' { Some(ShortFlag::FollowLinks) }
    else if c == 'l' { Some(ShortFlag::Format(OutputFormat::Long)) }
    else if c == 'm' { Some(ShortFlag::Format(OutputFormat::CommaDelim)) }
    else if c == 'n' { Some(ShortFlag::LongNumeric) }
    else if c == 'o' { Some(ShortFlag::LongHideGroup) }
    else if c == 'q' { Some(ShortFlag::NonPrintable) }
    else if c == 'R' { Some(ShortFlag::Recursive) }
    else if c == 'r' { Some(ShortFlag::Reverse) }
    else if c == 'S' { Some(ShortFlag::SizeSort) }
    else if c == 's' { Some(ShortFlag::ShowBlocks) }
    else if c == 't' { Some(ShortFlag::TimeSort) }
    else if c == 'u' { Some(ShortFlag::Time(TimeType::Access)) }
    else if c == 'U' { Some(ShortFlag::NoSort) }
    else if c == 'x' { Some(ShortFlag::Format(OutputFormat::Across)) }
    else if c == '1' { Some(ShortFlag::Format(OutputFormat::OnePerLine)) }
    else if c == 'b' { Some(ShortFlag::Escape) }
    else if c == 'h' { Some(ShortFlag::HumanReadable) }
    else if c == 'Q' { Some(ShortFlag::QuoteName) }
    else { None }
}

/// The flags of the letters `s[i..]`, or the message of the first letter
/// that is no option.
pub open spec fn short_flags_from(s: Seq<char>, i: int) -> Result<Seq<ShortFlag>, Seq<char>>
    decreases s.len() - i,
{
    if i < 0 || i >= s.len() {
        Ok(Seq::empty())
    } else {
        match short_flag_spec(s[i]) {
            None => Err("不正なオプション: '-"@ + seq![s[i]] + "'"@),
            Some(f) => match short_flags_from(s, i + 1) {
                Ok(rest) => Ok(seq![f] + rest),
                Err(e) => Err(e),
            },
        }
    }
}

/// The flags of a cluster `-abc` (the `-` included in `arg`), in order.
pub fn short_flags(arg: &str) -> (r: Result<Vec<ShortFlag>, String>)
    ensures
        match short_flags_from(arg@, 1) {
            Ok(fs) => r is Ok && r->Ok_0@ == fs,
            Err(e) => r is Err && r->Err_0@ == e,
        },
{
    let v = chars_of(arg);
    let mut out: Vec<ShortFlag> = Vec::new();
    let mut i: usize = 1;
    if v.len() == 0 {
        return Ok(out);
    }
    proof {
        assert(out@ =~= Seq::<ShortFlag>::empty());
    }
    while i < v.len()
        invariant
            1 <= i <= v.len(),
            v@ == arg@,
            forall|j: int| 1 <= j < i ==> short_flag_spec(v@[j]) is Some,
            out@.len() == i - 1,
            forall|j: int| 0 <= j < out@.len() ==> Some(out@[j]) == short_flag_spec(v@[j + 1]),
        decreases v.len() - i,
    {
        match short_flag(v[i]) {
            Some(f) => out.push(f),
            None => {
                let mut m = String::from_str("不正なオプション: '-");
                push_char(&mut m, v[i]);
                m.append("'");
                proof {
                    lemma_short_error(v@, 1, i as int);
                    assert(m@ =~= "不正なオプション: '-"@ + seq![v@[i as int]] + "'"@);
                }
                return Err(m);
            },
        }
        i += 1;
    }
    proof {
        lemma_short_ok(v@, 1, out@);
    }
    Ok(out)
}

proof fn lemma_short_error(s: Seq<char>, from: int, i: int)
    requires
        1 <= from <= i < s.len(),
        forall|j: int| from <= j < i ==> short_flag_spec(s[j]) is Some,
        short_flag_spec(s[i]) is None,
    ensures
        short_flags_from(s, from) == Err::<Seq<ShortFlag>, Seq<char>>("不正なオプション: '-"@ + seq![s[i]] + "'"@),
    decreases i - from,
{
    if from < i {
        lemma_short_error(s, from + 1, i);
    }
}

proof fn lemma_short_ok(s: Seq<char>, from: int, out: Seq<ShortFlag>)
    requires
        1 <= from <= s.len(),
        out.len() == s.len() - 1,
        forall|j: int| 0 <= j < out.len() ==> Some(out[j]) == short_flag_spec(s[j + 1]),
    ensures
        short_flags_from(s, from) == Ok::<Seq<ShortFlag>, Seq<char>>(out.skip(from - 1)),
    decreases s.len() - from,
{
    if from < s.len() {
        lemma_short_ok(s, from + 1, out);
        assert(out.skip(from - 1) =~= seq![out[from - 1]] + out.skip(from));
    } else {
        assert(out.skip(from - 1) =~= Seq::<ShortFlag>::empty());
    }
}

/// `s` without white space at its start.
pub open spec fn trim_start_spaces(s: Seq<char>) -> Seq<char>
    decreases s.len(),
{
    if s.len() > 0 && is_space(s[0]) { trim_start_spaces(s.drop_first()) } else { s }
}

/// `s` without white space at its end.
pub open spec fn trim_end_spaces(s: Seq<char>) -> Seq<char>
    decreases s.len(),
{
    if s.len() > 0 && is_space(s.last()) { trim_end_spaces(s.drop_last()) } else { s }
}

/// `s` without white space at either end (`str::trim`).
pub open spec fn trim_spaces(s: Seq<char>) -> Seq<char> {
    trim_end_spaces(trim_start_spaces(s))
}

/// `s` without white space at either end.
pub fn trim(s: &str) -> (r: Vec<char>)
    ensures
        r@ == trim_spaces(s@),
{
    let v = chars_of(s);
    let mut a: usize = 0;
    proof {
        assert(v@.skip(0) =~= v@);
    }
    while a < v.len() && is_space_char(v[a])
        invariant
            a <= v.len(),
            v@ == s@,
            trim_start_spaces(v@) == trim_start_spaces(v@.skip(a as int)),
        decreases v.len() - a,
    {
        assert(v@.skip(a as int).drop_first() =~= v@.skip(a + 1));
        a += 1;
    }
    let mut b: usize = v.len();
    proof {
        assert(v@.subrange(a as int, b as int) =~= v@.skip(a as int));
    }
    while b > a && is_space_char(v[b - 1])
        invariant
            a <= b <= v.len(),
            v@ == s@,
            trim_start_spaces(v@) == v@.skip(a as int) || trim_start_spaces(v@) == trim_start_spaces(v@.skip(a as int)),
            trim_spaces(v@) == trim_end_spaces(v@.subrange(a as int, b as int)),
        decreases b,
    {
        assert(v@.subrange(a as int, b as int).drop_last() =~= v@.subrange(a as int, b - 1));
        b -= 1;
    }
    slice_chars(&v, a, b)
}

/// `p` ends `s`.
pub open spec fn ends_with(s: Seq<char>, p: Seq<char>) -> bool {
    p.len() <= s.len() && s.skip(s.len() - p.len()) == p
}

/// The number part and multiplier of a block size (already trimmed): a
/// `KB`, `MB`, `GB` suffix (any case) counts in thousands, `K`, `M`, `G`
/// in 1024s.
pub open spec fn block_unit(t: Seq<char>) -> (Seq<char>, int) {
    let u = uppercase_of(t);
    if ends_with(u, "KB"@) && t.len() >= 2 {
        (t.take(t.len() - 2), 1000)
    } else if ends_with(u, "MB"@) && t.len() >= 2 {
        (t.take(t.len() - 2), 1000000)
    } else if ends_with(u, "GB"@) && t.len() >= 2 {
        (t.take(t.len() - 2), 1000000000)
    } else if ends_with(u, "K"@) && t.len() >= 1 {
        (t.take(t.len() - 1), 1024)
    } else if ends_with(u, "M"@) && t.len() >= 1 {
        (t.take(t.len() - 1), 1048576)
    } else if ends_with(u, "G"@) && t.len() >= 1 {
        (t.take(t.len() - 1), 1073741824)
    } else {
        (t, 1)
    }
}

/// The value of `--block-size=S`: the number (none means 1) times the
/// unit, or the message for a bad number; `None` when the product does not
/// fit in 64 bits.
pub open spec fn block_size_spec(s: Seq<char>) -> Option<Result<int, Seq<char>>> {
    let t = trim_spaces(s);
    let (num, mult) = block_unit(t);
    if num.len() == 0 {
        Some(Ok(mult))
    } else {
        match parse_int_spec(num, 0, u64::MAX as int) {
            Some(n) => if n * mult <= u64::MAX { Some(Ok(n * mult)) } else { None },
            None => Some(Err("不正なブロックサイズ: '"@ + t + "'"@)),
        }
    }
}

/// Whether the text `v` ends with the text `lit`.
fn ends_with_exec(v: &[char], lit: &str) -> (r: bool)
    ensures
        r == ends_with(v@, lit@),
{
    let p = chars_of(lit);
    if p.len() > v.len() {
        return false;
    }
    let tail = slice_chars(v, v.len() - p.len(), v.len());
    assert(tail@ =~= v@.skip(v@.len() - p@.len()));
    crate::text::chars_eq(&tail, &p)
}

/// The value of `--block-size=S`, as `block_size_spec` says.
pub fn parse_block_size(s: &str) -> (r: Option<Result<u64, String>>)
    ensures
        match block_size_spec(s@) {
            None => r is None,
            Some(Ok(n)) => r == Some(Ok::<u64, String>(n as u64)),
            Some(Err(e)) => r is Some && r->0 is Err && r->0->Err_0@ == e,
        },
{
    proof {
        reveal_strlit("KB");
        reveal_strlit("MB");
        reveal_strlit("GB");
        reveal_strlit("K");
        reveal_strlit("M");
        reveal_strlit("G");
    }
    let t = trim(s);
    let ts = string_of(&t);
    let up = to_uppercase(ts.as_str());
    let u = chars_of(up.as_str());
    let n = t.len();
    let (cut, mult): (usize, u64) = if ends_with_exec(&u, "KB") && n >= 2 {
        (2, 1000)
    } else if ends_with_exec(&u, "MB") && n >= 2 {
        (2, 1000000)
    } else if ends_with_exec(&u, "GB") && n >= 2 {
        (2, 1000000000)
    } else if ends_with_exec(&u, "K") && n >= 1 {
        (1, 1024)
    } else if ends_with_exec(&u, "M") && n >= 1 {
        (1, 1048576)
    } else if ends_with_exec(&u, "G") && n >= 1 {
        (1, 1073741824)
    } else {
        (0, 1)
    };
    let num = slice_chars(&t, 0, n - cut);
    assert(num@ =~= t@.take(n - cut));
    assert(block_unit(t@) == (num@, mult as int));
    if num.len() == 0 {
        return Some(Ok(mult));
    }
    match parse_unsigned(&num, u64::MAX) {
        Some(v) => match v.checked_mul(mult) {
            Some(p) => Some(Ok(p)),
            None => None,
        },
        None => Some(Err(wrap_chars("不正なブロックサイズ: '", &t, "'"))),
    }
}

/// What a long option means.
#[derive(Debug, PartialEq, Eq)]
pub enum LongFlag {
    All,
    AlmostAll,
    Directory,
    Classify,
    Dereference,
    Inode,
    Recursive,
    Reverse,
    HumanReadable,
    Si,
    Escape,
    QuoteName,
    NumericIds,
    GroupDirsFirst,
    Color(ColorMode),
    BlockSize(u64),
    TimeStyle(String),
    Help,
    Version,
}

/// The same, as values.
pub enum LongView {
    Plain(LongFlag),
    BlockSize(int),
    TimeStyle(Seq<char>),
}

/// The name of a long option (after `--`, up to the first `=`) and its
/// value (after that `=`).
pub open spec fn long_parts(opt: Seq<char>) -> (Seq<char>, Option<Seq<char>>) {
    match first_index_of(opt, '=') {
        Some(k) => (opt.take(k), Some(opt.skip(k + 1))),
        None => (opt, None),
    }
}

/// The colour mode that `--color[=V]` names, if any.
pub open spec fn color_spec(v: Option<Seq<char>>) -> Option<ColorMode> {
    match v {
        None => Some(ColorMode::Auto),
        Some(x) => if x == "always"@ || x == "yes"@ || x == "force"@ {
            Some(ColorMode::Always)
        } else if x == "never"@ || x == "no"@ || x == "none"@ {
            Some(ColorMode::Never)
        } else if x == "auto"@ || x == "tty"@ || x == "if-tty"@ {
            Some(ColorMode::Auto)
        } else {
            None
        },
    }
}

/// What `--NAME[=VALUE]` (with `opt` the text after `--`) means; `None`
/// when a block size overflows.
pub open spec fn long_flag_spec(opt: Seq<char>) -> Option<Result<LongView, Seq<char>>> {
    let (name, value) = long_parts(opt);
    if name == "all"@ { Some(Ok(LongView::Plain(LongFlag::All))) }
    else if name == "almost-all"@ { Some(Ok(LongView::Plain(LongFlag::AlmostAll))) }
    else if name == "directory"@ { Some(Ok(LongView::Plain(LongFlag::Directory))) }
    else if name == "classify"@ { Some(Ok(LongView::Plain(LongFlag::Classify))) }
    else if name == "dereference"@ { Some(Ok(LongView::Plain(LongFlag::Dereference))) }
    else if name == "inode"@ { Some(Ok(LongView::Plain(LongFlag::Inode))) }
    else if name == "recursive"@ { Some(Ok(LongView::Plain(LongFlag::Recursive))) }
    else if name == "reverse"@ { Some(Ok(LongView::Plain(LongFlag::Reverse))) }
    else if name == "human-readable"@ { Some(Ok(LongView::Plain(LongFlag::HumanReadable))) }
    else if name == "si"@ { Some(Ok(LongView::Plain(LongFlag::Si))) }
    else if name == "escape"@ { Some(Ok(LongView::Plain(LongFlag::Escape))) }
    else if name == "quote-name"@ { Some(Ok(LongView::Plain(LongFlag::QuoteName))) }
    else if name == "numeric-uid-gid"@ { Some(Ok(LongView::Plain(LongFlag::NumericIds))) }
    else if name == "group-directories-first"@ { Some(Ok(LongView::Plain(LongFlag::GroupDirsFirst))) }
    else if name == "color"@ {
        match color_spec(value) {
            Some(m) => Some(Ok(LongView::Plain(LongFlag::Color(m)))),
            None => Some(Err("'--color' の引数が不正です: '"@ + value->0 + "'"@)),
        }
    } else if name == "block-size"@ {
        match value {
            None => Some(Err("'--block-size' には引数が必要です"@)),
            Some(v) => match block_size_spec(v) {
                None => None,
                Some(Ok(n)) => Some(Ok(LongView::BlockSize(n))),
                Some(Err(e)) => Some(Err(e)),
            },
        }
    } else if name == "time-style"@ {
        Some(Ok(LongView::TimeStyle(match value { Some(v) => v, None => "locale"@ })))
    } else if name == "help"@ { Some(Ok(LongView::Plain(LongFlag::Help))) }
    else if name == "version"@ { Some(Ok(LongView::Plain(LongFlag::Version))) }
    else { Some(Err("不明なオプション: '--"@ + name + "'"@)) }
}

/// Whether a flag of `LongFlag` is what the view says.
pub open spec fn long_matches(f: LongFlag, v: LongView) -> bool {
    match v {
        LongView::Plain(p) => f == p && !(f is BlockSize) && !(f is TimeStyle),
        LongView::BlockSize(n) => f == LongFlag::BlockSize(n as u64),
        LongView::TimeStyle(t) => f is TimeStyle && f->TimeStyle_0@ == t,
    }
}

/// The colour mode of `--color[=V]`.
fn color_exec(v: &Option<Vec<char>>) -> (r: Option<ColorMode>)
    ensures
        r == color_spec(match v { Some(x) => Some(x@), None => None }),
{
    match v {
        None => Some(ColorMode::Auto),
        Some(x) => if chars_eq_str(x, "always") || chars_eq_str(x, "yes") || chars_eq_str(x, "force") {
            Some(ColorMode::Always)
        } else if chars_eq_str(x, "never") || chars_eq_str(x, "no") || chars_eq_str(x, "none") {
            Some(ColorMode::Never)
        } else if chars_eq_str(x, "auto") || chars_eq_str(x, "tty") || chars_eq_str(x, "if-tty") {
            Some(ColorMode::Auto)
        } else {
            None
        },
    }
}

/// What a long option `--NAME[=VALUE]` means (`arg` starts with `--`), as
/// `long_flag_spec` says of the text after `--`.
#[verifier::rlimit(60)]
pub fn long_flag(arg: &str) -> (r: Option<Result<LongFlag, String>>)
    requires
        arg@.len() >= 2,
    ensures
        match long_flag_spec(arg@.skip(2)) {
            None => r is None,
            Some(Ok(v)) => r is Some && r->0 is Ok && long_matches(r->0->Ok_0, v),
            Some(Err(e)) => r is Some && r->0 is Err && r->0->Err_0@ == e,
        },
{
    let a = chars_of(arg);
    let opt = slice_chars(&a, 2, a.len());
    assert(opt@ =~= arg@.skip(2));
    let (name, value) = match find_char(&opt, '=') {
        Some(k) => {
            proof {
                crate::text::lemma_first_index_of(opt@, '=', k as int);
            }
            let n = slice_chars(&opt, 0, k);
            let v = slice_chars(&opt, k + 1, opt.len());
            assert(n@ =~= opt@.take(k as int));
            assert(v@ =~= opt@.skip(k + 1));
            (n, Some(v))
        },
        None => {
            assert(!(exists|i: int| 0 <= i < opt@.len() && opt@[i] == '='));
            (opt.clone(), None)
        },
    };
    assert(long_parts(opt@) == (name@, match value { Some(x) => Some(x@), None => None::<Seq<char>> }));
    let f = if chars_eq_str(&name, "all") { LongFlag::All }
    else if chars_eq_str(&name, "almost-all") { LongFlag::AlmostAll }
    else if chars_eq_str(&name, "directory") { LongFlag::Directory }
    else if chars_eq_str(&name, "classify") { LongFlag::Classify }
    else if chars_eq_str(&name, "dereference") { LongFlag::Dereference }
    else if chars_eq_str(&name, "inode") { LongFlag::Inode }
    else if chars_eq_str(&name, "recursive") { LongFlag::Recursive }
    else if chars_eq_str(&name, "reverse") { LongFlag::Reverse }
    else if chars_eq_str(&name, "human-readable") { LongFlag::HumanReadable }
    else if chars_eq_str(&name, "si") { LongFlag::Si }
    else if chars_eq_str(&name, "escape") { LongFlag::Escape }
    else if chars_eq_str(&name, "quote-name") { LongFlag::QuoteName }
    else if chars_eq_str(&name, "numeric-uid-gid") { LongFlag::NumericIds }
    else if chars_eq_str(&name, "group-directories-first") { LongFlag::GroupDirsFirst }
    else if chars_eq_str(&name, "color") {
        match color_exec(&value) {
            Some(m) => LongFlag::Color(m),
            None => {
                let v = value.unwrap();
                return Some(Err(wrap_chars("'--color' の引数が不正です: '", &v, "'")));
            },
        }
    } else if chars_eq_str(&name, "block-size") {
        match value {
            None => return Some(Err(String::from_str("'--block-size' には引数が必要です"))),
            Some(v) => {
                let vs = string_of(&v);
                match parse_block_size(vs.as_str()) {
                    None => return None,
                    Some(Ok(n)) => LongFlag::BlockSize(n),
                    Some(Err(e)) => return Some(Err(e)),
                }
            },
        }
    } else if chars_eq_str(&name, "time-style") {
        match value {
            Some(v) => LongFlag::TimeStyle(string_of(&v)),
            None => LongFlag::TimeStyle(String::from_str("locale")),
        }
    } else if chars_eq_str(&name, "help") { LongFlag::Help }
    else if chars_eq_str(&name, "version") { LongFlag::Version }
    else {
        return Some(Err(wrap_chars("不明なオプション: '--", &name, "'")));
    };
    Some(Ok(f))
}

} // verus!

verus! {

/// One option of the command line, as read.
#[derive(Debug, PartialEq, Eq)]
pub enum Flag {
    Short(ShortFlag),
    Long(LongFlag),
}

/// The same, as values.
pub enum FlagView {
    Short(ShortFlag),
    Long(LongView),
}

/// Whether a read option is what the view says.
pub open spec fn flag_matches(f: Flag, v: FlagView) -> bool {
    match (f, v) {
        (Flag::Short(a), FlagView::Short(b)) => a == b,
        (Flag::Long(a), FlagView::Long(b)) => long_matches(a, b),
        _ => false,
    }
}

/// The options and operands from the argument at `i` on (`rest` once `--`
/// was read): long options one by one, clusters letter by letter, the
/// first bad option's message; `None` when a block size overflows.
pub open spec fn ls_args_from(args: Seq<Seq<char>>, i: int, rest: bool, flags: Seq<FlagView>, paths: Seq<Seq<char>>)
    -> Option<Result<(Seq<FlagView>, Seq<Seq<char>>), Seq<char>>>
    decreases args.len() - i,
{
    if i < 0 || i >= args.len() {
        Some(Ok((flags, paths)))
    } else {
        let a = args[i];
        if rest {
            ls_args_from(args, i + 1, rest, flags, paths.push(a))
        } else if a == "--"@ {
            ls_args_from(args, i + 1, true, flags, paths)
        } else if crate::text::is_prefix("--"@, a) {
            match long_flag_spec(a.skip(2)) {
                None => None,
                Some(Err(e)) => Some(Err(e)),
                Some(Ok(v)) => ls_args_from(args, i + 1, rest, flags.push(FlagView::Long(v)), paths),
            }
        } else if a.len() > 1 && a[0] == '-' {
            match short_flags_from(a, 1) {
                Err(e) => Some(Err(e)),
                Ok(fs) => ls_args_from(args, i + 1, rest, flags + fs.map_values(|f: ShortFlag| FlagView::Short(f)), paths),
            }
        } else {
            ls_args_from(args, i + 1, rest, flags, paths.push(a))
        }
    }
}

/// Whether the read options match their views, one for one.
pub open spec fn flags_match(fs: Seq<Flag>, vs: Seq<FlagView>) -> bool {
    fs.len() == vs.len() && forall|j: int| 0 <= j < fs.len() ==> flag_matches(#[trigger] fs[j], vs[j])
}

/// Reads the command line of `ls` (`args[0]` is the program's name): the
/// options in order and the operands, or the first error's message, as
/// `ls_args_from` says; `None` when a block size overflows.
pub fn parse_args(args: &[String]) -> (r: Option<Result<(Vec<Flag>, Vec<String>), String>>)
    ensures
        match ls_args_from(crate::find::expression::strings_view(args@), 1, false, Seq::empty(), Seq::empty()) {
            None => r is None,
            Some(Err(e)) => r is Some && r->0 is Err && r->0->Err_0@ == e,
            Some(Ok((fv, pv))) => r is Some && r->0 is Ok && flags_match(r->0->Ok_0.0@, fv)
                && crate::find::expression::strings_view(r->0->Ok_0.1@) == pv,
        },
{
    let ghost sv = crate::find::expression::strings_view(args@);
    let mut flags: Vec<Flag> = Vec::new();
    let mut paths: Vec<String> = Vec::new();
    let ghost mut fv: Seq<FlagView> = Seq::empty();
    let mut rest = false;
    proof {
        assert(crate::find::expression::strings_view(paths@) =~= Seq::<Seq<char>>::empty());
    }
    if args.len() == 0 {
        return Some(Ok((flags, paths)));
    }
    let mut i: usize = 1;
    while i < args.len()
        invariant
            1 <= i <= args.len(),
            sv == crate::find::expression::strings_view(args@),
            flags_match(flags@, fv),
            ls_args_from(sv, 1, false, Seq::empty(), Seq::empty())
                == ls_args_from(sv, i as int, rest, fv, crate::find::expression::strings_view(paths@)),
        decreases args.len() - i,
    {
        let a = chars_of(args[i].as_str());
        assert(a@ == sv[i as int]);
        let ghost pv = crate::find::expression::strings_view(paths@);
        if rest || !(chars_eq_str(&a, "--") || crate::text::starts_with_str(&a, "--") || (a.len() > 1 && a[0] == '-')) {
            paths.push(args[i].clone());
            proof {
                assert(crate::find::expression::strings_view(paths@) =~= pv.push(sv[i as int]));
            }
        } else if chars_eq_str(&a, "--") {
            rest = true;
        } else if crate::text::starts_with_str(&a, "--") {
            proof {
                reveal_strlit("--");
            }
            match long_flag(args[i].as_str()) {
                None => {
                    return None;
                },
                Some(Err(e)) => {
                    return Some(Err(e));
                },
                Some(Ok(f)) => {
                    let ghost v = long_flag_spec(sv[i as int].skip(2))->0->Ok_0;
                    flags.push(Flag::Long(f));
                    proof {
                        fv = fv.push(FlagView::Long(v));
                    }
                },
            }
        } else {
            match short_flags(args[i].as_str()) {
                Err(e) => {
                    return Some(Err(e));
                },
                Ok(fs) => {
                    let ghost fsv = fs@.map_values(|f: ShortFlag| FlagView::Short(f));
                    let mut k: usize = 0;
                    let ghost start = fv;
                    while k < fs.len()
                        invariant
                            k <= fs.len(),
                            flags_match(flags@, fv),
                            fv == start + fsv.take(k as int),
                            fsv == fs@.map_values(|f: ShortFlag| FlagView::Short(f)),
                        decreases fs.len() - k,
                    {
                        flags.push(Flag::Short(fs[k]));
                        proof {
                            fv = fv.push(FlagView::Short(fs@[k as int]));
                            assert(fsv.take(k + 1) =~= fsv.take(k as int).push(fsv[k as int]));
                        }
                        k += 1;
                    }
                    proof {
                        assert(fsv.take(fs.len() as int) =~= fsv);
                    }
                },
            }
        }
        i += 1;
    }
    Some(Ok((flags, paths)))
}

} // verus!
