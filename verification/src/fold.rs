//! The library side of `fold`: its command line, the width of characters,
//! the folding of a line by columns or by bytes, and the encodings it reads.
use vstd::prelude::*;
use crate::text::{chars_of, string_of, slice_chars, push_char, push_chars, chars_eq_str, starts_with_str,
    is_prefix, parse_usize, parse_int_spec, wrap_chars, concat};
use crate::find::expression::strings_view;
use crate::join::{is_white, is_white_char, joined};
use crate::grep::lines::{TextEncoding, decoded_of};
use vstd::string::StringSliceAdditionalSpecFns;

verus! {

/// The settings of `fold`.
#[derive(Debug, Clone, Copy, PartialEq, Eq, Structural)]
pub struct Options {
    pub width: usize,
    pub bytes: bool,
    pub spaces: bool,
    pub show_help: bool,
    pub show_version: bool,
}

/// The settings before any argument: 80 columns.
pub open spec fn default_fold_options() -> Options {
    Options { width: 80, bytes: false, spaces: false, show_help: false, show_version: false }
}

/// A width read from `v`, or its error (not a number, or zero).
pub open spec fn width_value(v: Seq<char>) -> Result<usize, Seq<char>> {
    match parse_int_spec(v, 0, usize::MAX as int) {
        None => Err("無効な幅: '"@ + v + "'"@),
        Some(n) => if n == 0 { Err("幅は1以上である必要があります"@) } else { Ok(n as usize) },
    }
}

/// A cluster of short options `chars[j..]` (from the argument at `i`):
/// the settings and the last argument it read, or the error.
pub open spec fn short_cluster(args: Seq<Seq<char>>, i: int, chars: Seq<char>, j: int, o: Options) -> Result<(Options, int), Seq<char>>
    decreases chars.len() - j,
{
    if j < 0 || j >= chars.len() {
        Ok((o, i))
    } else {
        let c = chars[j];
        if c == 'b' {
            short_cluster(args, i, chars, j + 1, Options { bytes: true, ..o })
        } else if c == 's' {
            short_cluster(args, i, chars, j + 1, Options { spaces: true, ..o })
        } else if c == 'w' {
            let rest = chars.skip(j + 1);
            if rest.len() > 0 {
                match width_value(rest) {
                    Ok(w) => Ok((Options { width: w, ..o }, i)),
                    Err(e) => Err(e),
                }
            } else if i + 1 >= args.len() {
                Err("オプション '-w' には引数が必要です"@)
            } else {
                match width_value(args[i + 1]) {
                    Ok(w) => Ok((Options { width: w, ..o }, i + 1)),
                    Err(e) => Err(e),
                }
            }
        } else {
            Err("不正なオプション: '-"@ + seq![c] + "'"@)
        }
    }
}

/// What the argument at `i` does: the settings, the argument after it,
/// the operand it is (if any), and whether it ends the options.
pub open spec fn fold_arg(args: Seq<Seq<char>>, i: int, o: Options) -> Result<(Options, int, Option<Seq<char>>, bool), Seq<char>> {
    let a = args[i];
    if a == "--"@ {
        Ok((o, i + 1, None, true))
    } else if is_prefix("--"@, a) {
        if a == "--bytes"@ {
            Ok((Options { bytes: true, ..o }, i + 1, None, false))
        } else if a == "--spaces"@ {
            Ok((Options { spaces: true, ..o }, i + 1, None, false))
        } else if a == "--help"@ {
            Ok((Options { show_help: true, ..o }, i + 1, None, false))
        } else if a == "--version"@ {
            Ok((Options { show_version: true, ..o }, i + 1, None, false))
        } else if is_prefix("--width="@, a) {
            match width_value(a.skip(8)) {
                Ok(w) => Ok((Options { width: w, ..o }, i + 1, None, false)),
                Err(e) => Err(e),
            }
        } else if a == "--width"@ {
            if i + 1 >= args.len() {
                Err("オプション '--width' には引数が必要です"@)
            } else {
                match width_value(args[i + 1]) {
                    Ok(w) => Ok((Options { width: w, ..o }, i + 2, None, false)),
                    Err(e) => Err(e),
                }
            }
        } else {
            Err("不明なオプション: '"@ + a + "'"@)
        }
    } else if a.len() > 1 && a[0] == '-' {
        let chars = a.skip(1);
        if '0' <= chars[0] <= '9' {
            match width_value(chars) {
                Ok(w) => Ok((Options { width: w, ..o }, i + 1, None, false)),
                Err(e) => Err(e),
            }
        } else {
            match short_cluster(args, i, chars, 0, o) {
                Ok((o2, last)) => Ok((o2, last + 1, None, false)),
                Err(e) => Err(e),
            }
        }
    } else {
        Ok((o, i + 1, Some(a), false))
    }
}

pub proof fn lemma_short_cluster_next(args: Seq<Seq<char>>, i: int, chars: Seq<char>, j: int, o: Options)
    ensures
        match short_cluster(args, i, chars, j, o) {
            Ok((_, last)) => i <= last <= i + 1 && (last == i + 1 ==> i + 1 < args.len()),
            Err(_) => true,
        },
    decreases chars.len() - j,
{
    if 0 <= j < chars.len() {
        let c = chars[j];
        if c == 'b' {
            lemma_short_cluster_next(args, i, chars, j + 1, Options { bytes: true, ..o });
        } else if c == 's' {
            lemma_short_cluster_next(args, i, chars, j + 1, Options { spaces: true, ..o });
        }
    }
}

/// The settings and operands from the argument at `i` on (all operands
/// after `--` when `ended`), or the first error.
pub open spec fn fold_args_from(args: Seq<Seq<char>>, i: int, o: Options, files: Seq<Seq<char>>, ended: bool) -> Result<(Options, Seq<Seq<char>>), Seq<char>>
    decreases args.len() - i,
{
    if i < 0 || i >= args.len() {
        Ok((o, files))
    } else if ended {
        fold_args_from(args, i + 1, o, files.push(args[i]), true)
    } else {
        match fold_arg(args, i, o) {
            Err(e) => Err(e),
            Ok((o2, next, file, end)) => {
                proof {
                    lemma_fold_arg_next(args, i, o);
                }
                fold_args_from(args, next, o2, match file {
                    Some(f) => files.push(f),
                    None => files,
                }, end)
            },
        }
    }
}

pub proof fn lemma_fold_arg_next(args: Seq<Seq<char>>, i: int, o: Options)
    requires
        0 <= i < args.len(),
    ensures
        match fold_arg(args, i, o) {
            Ok((_, next, _, _)) => i < next <= args.len(),
            Err(_) => true,
        },
{
    let a = args[i];
    if !is_prefix("--"@, a) && a.len() > 1 && a[0] == '-' {
        lemma_short_cluster_next(args, i, a.skip(1), 0, o);
    }
}

/// What the command line of `fold` gives (the program name first): the
/// settings and the files, or the first error.
pub open spec fn fold_args_spec(args: Seq<Seq<char>>) -> Result<(Options, Seq<Seq<char>>), Seq<char>> {
    fold_args_from(args, 1, default_fold_options(), Seq::empty(), false)
}

/// A width read from `v`.
fn width_value_exec(v: &[char]) -> (r: Result<usize, String>)
    ensures
        match width_value(v@) {
            Ok(w) => r == Ok::<usize, String>(w),
            Err(e) => r is Err && r->Err_0@ == e,
        },
{
    match parse_usize(v) {
        None => Err(wrap_chars("無効な幅: '", v, "'")),
        Some(n) => if n == 0 { Err(String::from_str("幅は1以上である必要があります")) } else { Ok(n) },
    }
}

/// A cluster of short options.
fn short_cluster_exec(args: &[String], i: usize, chars: &Vec<char>, start: Options) -> (r: Result<(Options, usize), String>)
    requires
        i < args.len(),
    ensures
        match short_cluster(strings_view(args@), i as int, chars@, 0, start) {
            Ok((o2, last)) => r is Ok && r->Ok_0.0 == o2 && r->Ok_0.1 as int == last,
            Err(e) => r is Err && r->Err_0@ == e,
        },
{
    let ghost sa = strings_view(args@);
    let mut o = start;
    let mut j: usize = 0;
    while j < chars.len()
        invariant
            j <= chars.len(),
            i < args.len(),
            sa == strings_view(args@),
            short_cluster(sa, i as int, chars@, 0, start) == short_cluster(sa, i as int, chars@, j as int, o),
        decreases chars.len() - j,
    {
        let c = chars[j];
        if c == 'b' {
            o = Options { bytes: true, ..o };
        } else if c == 's' {
            o = Options { spaces: true, ..o };
        } else if c == 'w' {
            let rest = slice_chars(chars, j + 1, chars.len());
            proof {
                assert(rest@ =~= chars@.skip(j + 1));
            }
            if rest.len() > 0 {
                return match width_value_exec(&rest) {
                    Ok(w) => Ok((Options { width: w, ..o }, i)),
                    Err(e) => Err(e),
                };
            } else if i + 1 >= args.len() {
                return Err(String::from_str("オプション '-w' には引数が必要です"));
            } else {
                let v = chars_of(args[i + 1].as_str());
                assert(v@ == sa[i + 1]);
                return match width_value_exec(&v) {
                    Ok(w) => Ok((Options { width: w, ..o }, i + 1)),
                    Err(e) => Err(e),
                };
            }
        } else {
            let mut m = String::from_str("不正なオプション: '-");
            push_char(&mut m, c);
            m.append("'");
            return Err(m);
        }
        j += 1;
    }
    Ok((o, i))
}

/// Reads the command line of `fold` (the program name first): the
/// settings and the files, or the first error, as `fold_args_spec` says.
pub fn parse_args(args: &[String]) -> (r: Result<(Options, Vec<String>), String>)
    ensures
        match fold_args_spec(strings_view(args@)) {
            Ok((o, files)) => r is Ok && r->Ok_0.0 == o && strings_view(r->Ok_0.1@) == files,
            Err(e) => r is Err && r->Err_0@ == e,
        },
{
    let ghost sa = strings_view(args@);
    let mut o = Options { width: 80, bytes: false, spaces: false, show_help: false, show_version: false };
    let mut files: Vec<String> = Vec::new();
    let mut ended = false;
    let mut i: usize = 1;
    proof {
        assert(strings_view(files@) =~= Seq::<Seq<char>>::empty());
    }
    if args.len() == 0 {
        return Ok((o, files));
    }
    while i < args.len()
        invariant
            1 <= i <= args.len(),
            sa == strings_view(args@),
            fold_args_spec(sa) == fold_args_from(sa, i as int, o, strings_view(files@), ended),
        decreases args.len() - i,
    {
        let ghost before = strings_view(files@);
        if ended {
            let f = args[i].clone();
            files.push(f);
            proof {
                assert(strings_view(files@) =~= before.push(sa[i as int]));
            }
            i += 1;
            continue;
        }
        let a = chars_of(args[i].as_str());
        assert(a@ == sa[i as int]);
        proof {
            lemma_fold_arg_next(sa, i as int, o);
        }
        if chars_eq_str(&a, "--") {
            ended = true;
            i += 1;
        } else if starts_with_str(&a, "--") {
            if chars_eq_str(&a, "--bytes") {
                o = Options { bytes: true, ..o };
                i += 1;
            } else if chars_eq_str(&a, "--spaces") {
                o = Options { spaces: true, ..o };
                i += 1;
            } else if chars_eq_str(&a, "--help") {
                o = Options { show_help: true, ..o };
                i += 1;
            } else if chars_eq_str(&a, "--version") {
                o = Options { show_version: true, ..o };
                i += 1;
            } else if starts_with_str(&a, "--width=") {
                proof {
                    reveal_strlit("--width=");
                }
                let v = slice_chars(&a, 8, a.len());
                proof {
                    assert(v@ =~= a@.skip(8));
                }
                match width_value_exec(&v) {
                    Ok(w) => {
                        o = Options { width: w, ..o };
                        i += 1;
                    },
                    Err(e) => return Err(e),
                }
            } else if chars_eq_str(&a, "--width") {
                if i + 1 >= args.len() {
                    return Err(String::from_str("オプション '--width' には引数が必要です"));
                }
                let v = chars_of(args[i + 1].as_str());
                assert(v@ == sa[i + 1]);
                match width_value_exec(&v) {
                    Ok(w) => {
                        o = Options { width: w, ..o };
                        i += 2;
                    },
                    Err(e) => return Err(e),
                }
            } else {
                return Err(wrap_chars("不明なオプション: '", &a, "'"));
            }
        } else if a.len() > 1 && a[0] == '-' {
            let chars = slice_chars(&a, 1, a.len());
            proof {
                assert(chars@ =~= a@.skip(1));
            }
            if '0' <= chars[0] && chars[0] <= '9' {
                match width_value_exec(&chars) {
                    Ok(w) => {
                        o = Options { width: w, ..o };
                        i += 1;
                    },
                    Err(e) => return Err(e),
                }
            } else {
                match short_cluster_exec(args, i, &chars, o) {
                    Ok((o2, last)) => {
                        o = o2;
                        i = last + 1;
                    },
                    Err(e) => return Err(e),
                }
            }
        } else {
            let f = args[i].clone();
            files.push(f);
            proof {
                assert(strings_view(files@) =~= before.push(sa[i as int]));
            }
            i += 1;
        }
    }
    Ok((o, files))
}

/// Whether `c` takes two columns (CJK, kana, Hangul, full-width forms;
/// not the half-width kana).
pub open spec fn fold_wide(c: char) -> bool {
    let cp = c as int;
    cp > 0x7F && !(0xFF61 <= cp <= 0xFF9F) && (
        (0x4E00 <= cp <= 0x9FFF) || (0x3400 <= cp <= 0x4DBF) || (0x20000 <= cp <= 0x3134F) || (0x3040 <= cp <= 0x309F)
        || (0x30A0 <= cp <= 0x30FF) || (0xFF01 <= cp <= 0xFF60) || (0x3000 <= cp <= 0x303F) || (0xAC00 <= cp <= 0xD7AF)
        || (0x1100 <= cp <= 0x11FF) || (0x3200 <= cp <= 0x32FF) || (0x3300 <= cp <= 0x33FF) || (0xFFE0 <= cp <= 0xFFE6))
}

/// Whether `c` takes two columns.
pub fn is_wide_char(c: char) -> (r: bool)
    ensures
        r == fold_wide(c),
{
    if c <= '\u{7F}' {
        return false;
    }
    if '\u{FF61}' <= c && c <= '\u{FF9F}' {
        return false;
    }
    ('\u{4E00}' <= c && c <= '\u{9FFF}') || ('\u{3400}' <= c && c <= '\u{4DBF}') || ('\u{20000}' <= c && c <= '\u{3134F}')
        || ('\u{3040}' <= c && c <= '\u{309F}') || ('\u{30A0}' <= c && c <= '\u{30FF}') || ('\u{FF01}' <= c && c <= '\u{FF60}')
        || ('\u{3000}' <= c && c <= '\u{303F}') || ('\u{AC00}' <= c && c <= '\u{D7AF}') || ('\u{1100}' <= c && c <= '\u{11FF}')
        || ('\u{3200}' <= c && c <= '\u{32FF}') || ('\u{3300}' <= c && c <= '\u{33FF}') || ('\u{FFE0}' <= c && c <= '\u{FFE6}')
}

/// Whether `c` is a control character (`char::is_control`).
pub open spec fn is_control(c: char) -> bool {
    (c as int) <= 0x1F || (0x7F <= (c as int) <= 0x9F)
}

/// The columns `c` takes at column `col`: a tab reaches the next multiple
/// of eight, control characters take none.
pub open spec fn fold_char_width(c: char, col: int) -> int {
    if c == '\t' {
        8 - col % 8
    } else if c == '\r' || is_control(c) {
        0
    } else if fold_wide(c) {
        2
    } else {
        1
    }
}

/// A tab reaches the next multiple of eight columns (a full eight from a
/// tab stop); a carriage return and other control characters take no
/// column, and every other character one or two.
pub proof fn lemma_tab_stops(c: char, col: int)
    requires
        0 <= col,
    ensures
        (col + fold_char_width('\t', col)) % 8 == 0,
        0 < fold_char_width('\t', col) <= 8,
        c != '\t' && ((c as int) <= 0x1F || (0x7F <= (c as int) <= 0x9F)) ==> fold_char_width(c, col) == 0,
        c != '\t' && !((c as int) <= 0x1F || (0x7F <= (c as int) <= 0x9F)) ==> 1 <= fold_char_width(c, col) <= 2,
{
    let r = col % 8;
    assert(col == 8 * (col / 8) + r && 0 <= r < 8) by (nonlinear_arith)
        requires 0 <= col, r == col % 8;
    assert((col + (8 - r)) == 8 * (col / 8 + 1));
    vstd::arithmetic::div_mod::lemma_mod_multiples_basic(col / 8 + 1, 8);
    assert((col / 8 + 1) * 8 == 8 * (col / 8 + 1)) by (nonlinear_arith);
}

/// The columns `c` takes at column `col`.
pub fn get_char_width(c: char, current_col: usize) -> (r: usize)
    ensures
        r == fold_char_width(c, current_col as int),
{
    if c == '\t' {
        8 - (current_col % 8)
    } else if c == '\r' || c <= '\u{1F}' || ('\u{7F}' <= c && c <= '\u{9F}') {
        0
    } else if is_wide_char(c) {
        2
    } else {
        1
    }
}

/// The first index at or after `i` that holds no space.
pub open spec fn skip_space_chars(cs: Seq<char>, i: int) -> int
    decreases cs.len() - i,
{
    if 0 <= i < cs.len() && cs[i] == ' ' {
        skip_space_chars(cs, i + 1)
    } else {
        i
    }
}

pub proof fn lemma_skip_space_chars(cs: Seq<char>, i: int)
    requires
        0 <= i <= cs.len(),
    ensures
        i <= skip_space_chars(cs, i) <= cs.len(),
    decreases cs.len() - i,
{
    if i < cs.len() && cs[i] == ' ' {
        lemma_skip_space_chars(cs, i + 1);
    }
}

/// `s` without white space at its end.
pub open spec fn trim_end_ws(s: Seq<char>) -> Seq<char>
    decreases s.len(),
{
    if s.len() > 0 && is_white(s.last()) {
        trim_end_ws(s.drop_last())
    } else {
        s
    }
}

/// What folding `cs` by columns prints from `pos` on, the current output
/// line starting at `start` and having reached column `col`, the last
/// space seen (with `-s`) at `last`.
pub open spec fn fold_chars_from(cs: Seq<char>, width: int, spaces: bool, pos: int, start: int, col: int, last: Option<int>) -> Seq<char>
    decreases cs.len() - start, cs.len() - pos,
{
    if pos < 0 || start < 0 || start > pos || pos >= cs.len() {
        if 0 <= start < cs.len() { cs.subrange(start, cs.len() as int) } else { Seq::empty() }
    } else {
        let c = cs[pos];
        let cw = fold_char_width(c, col);
        let last2 = if spaces && c == ' ' { Some(pos) } else { last };
        if col + cw > width && pos > start {
            if spaces && last2 is Some && last2->Some_0 > start && last2->Some_0 <= pos {
                let sp = last2->Some_0;
                let next = skip_space_chars(cs, sp + 1);
                proof {
                    lemma_skip_space_chars(cs, sp + 1);
                }
                trim_end_ws(cs.subrange(start, sp + 1)) + seq!['\n'] + fold_chars_from(cs, width, spaces, next, next, 0, None)
            } else {
                cs.subrange(start, pos) + seq!['\n'] + fold_chars_from(cs, width, spaces, pos, pos, 0, None)
            }
        } else {
            fold_chars_from(cs, width, spaces, pos + 1, start, col + cw, last2)
        }
    }
}


/// A text without its line breaks.
pub open spec fn strip_newlines(s: Seq<char>) -> Seq<char>
    decreases s.len(),
{
    if s.len() == 0 {
        Seq::empty()
    } else {
        strip_newlines(s.drop_last()) + if s.last() == '\n' { Seq::empty() } else { seq![s.last()] }
    }
}

/// The columns a row of output takes, tabs reaching the next multiple of
/// eight.
pub open spec fn row_cols(r: Seq<char>) -> int
    decreases r.len(),
{
    if r.len() == 0 {
        0
    } else {
        let p = row_cols(r.drop_last());
        p + fold_char_width(r.last(), p)
    }
}

/// A row fits in `width` columns, or holds a single character.
pub open spec fn row_fits(r: Seq<char>, width: int) -> bool {
    row_cols(r) <= width || r.len() <= 1
}

/// Where the first line break of `s` from `i` on stands.
pub open spec fn newline_from(s: Seq<char>, i: int) -> Option<int>
    decreases s.len() - i,
{
    if i < 0 || i >= s.len() {
        None
    } else if s[i] == '\n' {
        Some(i)
    } else {
        newline_from(s, i + 1)
    }
}

/// Every row of `s` (the pieces between its line breaks) fits.
pub open spec fn rows_fit(s: Seq<char>, width: int) -> bool
    decreases s.len(),
{
    match newline_from(s, 0) {
        Some(k) => if 0 <= k < s.len() { row_fits(s.take(k), width) && rows_fit(s.skip(k + 1), width) } else { false },
        None => row_fits(s, width),
    }
}

/// The text holds no line break.
pub open spec fn no_newline(s: Seq<char>) -> bool {
    forall|i: int| 0 <= i < s.len() ==> s[i] != '\n'
}

proof fn lemma_strip_concat(a: Seq<char>, b: Seq<char>)
    ensures
        strip_newlines(a + b) == strip_newlines(a) + strip_newlines(b),
    decreases b.len(),
{
    if b.len() == 0 {
        assert(a + b =~= a);
        assert(strip_newlines(a) + strip_newlines(b) =~= strip_newlines(a));
    } else {
        lemma_strip_concat(a, b.drop_last());
        assert((a + b).drop_last() =~= a + b.drop_last());
    }
}

proof fn lemma_strip_plain(a: Seq<char>)
    requires
        no_newline(a),
    ensures
        strip_newlines(a) == a,
    decreases a.len(),
{
    if a.len() > 0 {
        lemma_strip_plain(a.drop_last());
        assert(a.drop_last() + seq![a.last()] =~= a);
    }
}

proof fn lemma_newline_after_plain(r: Seq<char>, rest: Seq<char>, i: int)
    requires
        no_newline(r),
        0 <= i <= r.len(),
    ensures
        newline_from(r + seq!['\n'] + rest, i) == Some(r.len() as int),
    decreases r.len() - i,
{
    if i < r.len() {
        lemma_newline_after_plain(r, rest, i + 1);
    }
}

proof fn lemma_no_newline_none(r: Seq<char>, i: int)
    requires
        no_newline(r),
        0 <= i <= r.len(),
    ensures
        newline_from(r, i) is None,
    decreases r.len() - i,
{
    if i < r.len() {
        lemma_no_newline_none(r, i + 1);
    }
}

proof fn lemma_rows_fit_cons(r: Seq<char>, rest: Seq<char>, width: int)
    requires
        no_newline(r),
    ensures
        rows_fit(r + seq!['\n'] + rest, width) == (row_fits(r, width) && rows_fit(rest, width)),
{
    let s = r + seq!['\n'] + rest;
    lemma_newline_after_plain(r, rest, 0);
    assert(s.take(r.len() as int) =~= r);
    assert(s.skip(r.len() as int + 1) =~= rest);
}

/// Folding by columns without `-s` keeps the text: the output without its
/// inserted line breaks is the line again.
pub proof fn lemma_fold_keeps_text(cs: Seq<char>, width: int, pos: int, start: int, col: int)
    requires
        no_newline(cs),
        0 <= start <= pos <= cs.len(),
    ensures
        strip_newlines(fold_chars_from(cs, width, false, pos, start, col, None)) == cs.subrange(start, cs.len() as int),
    decreases cs.len() - start, cs.len() - pos,
{
    if pos >= cs.len() {
        lemma_strip_plain(cs.subrange(start, cs.len() as int));
    } else {
        let c = cs[pos];
        let cw = fold_char_width(c, col);
        if col + cw > width && pos > start {
            lemma_fold_keeps_text(cs, width, pos, pos, 0);
            let head = cs.subrange(start, pos);
            let rest = fold_chars_from(cs, width, false, pos, pos, 0, None);
            lemma_strip_concat(head + seq!['\n'], rest);
            lemma_strip_concat(head, seq!['\n']);
            lemma_strip_plain(head);
            assert(strip_newlines(seq!['\n']) =~= Seq::<char>::empty()) by {
                assert(seq!['\n'].drop_last() =~= Seq::<char>::empty());
                assert(strip_newlines(Seq::<char>::empty()) =~= Seq::<char>::empty());
                assert(seq!['\n'].last() == '\n');
            }
            assert(head + cs.subrange(pos, cs.len() as int) =~= cs.subrange(start, cs.len() as int));
        } else {
            lemma_fold_keeps_text(cs, width, pos + 1, start, col + cw);
        }
    }
}

/// Folding by columns without `-s` makes every row fit the width, except
/// a row of a single character wider than it.
pub proof fn lemma_fold_rows_fit(cs: Seq<char>, width: int, pos: int, start: int, col: int)
    requires
        no_newline(cs),
        0 <= start <= pos <= cs.len(),
        col == row_cols(cs.subrange(start, pos)),
        col <= width || pos - start <= 1,
    ensures
        rows_fit(fold_chars_from(cs, width, false, pos, start, col, None), width),
    decreases cs.len() - start, cs.len() - pos,
{
    if pos >= cs.len() {
        lemma_no_newline_none(cs.subrange(start, cs.len() as int), 0);
    } else {
        let c = cs[pos];
        let cw = fold_char_width(c, col);
        if col + cw > width && pos > start {
            assert(cs.subrange(pos, pos) =~= Seq::<char>::empty());
            lemma_fold_rows_fit(cs, width, pos, pos, 0);
            lemma_rows_fit_cons(cs.subrange(start, pos), fold_chars_from(cs, width, false, pos, pos, 0, None), width);
        } else {
            assert(cs.subrange(start, pos + 1).drop_last() =~= cs.subrange(start, pos));
            lemma_fold_rows_fit(cs, width, pos + 1, start, col + cw);
        }
    }
}

/// Every row of `s` but the last is full: the first character of the row
/// after it would not fit on it.
pub open spec fn rows_full(s: Seq<char>, width: int) -> bool
    decreases s.len(),
{
    match newline_from(s, 0) {
        Some(k) => if 0 <= k < s.len() {
            let rest = s.skip(k + 1);
            &&& rest.len() > 0
            &&& rest[0] != '\n'
            &&& row_cols(s.take(k).push(rest[0])) > width
            &&& rows_full(rest, width)
        } else {
            false
        },
        None => true,
    }
}

proof fn lemma_fold_first(cs: Seq<char>, width: int, pos: int, start: int, col: int)
    requires
        0 <= start <= pos <= cs.len(),
        start < cs.len(),
    ensures
        fold_chars_from(cs, width, false, pos, start, col, None).len() > 0,
        fold_chars_from(cs, width, false, pos, start, col, None)[0] == cs[start],
    decreases cs.len() - pos,
{
    if pos < cs.len() {
        let c = cs[pos];
        let cw = fold_char_width(c, col);
        if !(col + cw > width && pos > start) {
            lemma_fold_first(cs, width, pos + 1, start, col + cw);
        }
    }
}

/// Folding by columns without `-s` fills every row but the last: the
/// first character of the next row would not have fitted on it.
pub proof fn lemma_fold_rows_full(cs: Seq<char>, width: int, pos: int, start: int, col: int)
    requires
        no_newline(cs),
        0 <= start <= pos <= cs.len(),
        col == row_cols(cs.subrange(start, pos)),
    ensures
        rows_full(fold_chars_from(cs, width, false, pos, start, col, None), width),
    decreases cs.len() - start, cs.len() - pos,
{
    if pos >= cs.len() {
        lemma_no_newline_none(cs.subrange(start, cs.len() as int), 0);
    } else {
        let c = cs[pos];
        let cw = fold_char_width(c, col);
        if col + cw > width && pos > start {
            let head = cs.subrange(start, pos);
            let rest = fold_chars_from(cs, width, false, pos, pos, 0, None);
            assert(cs.subrange(pos, pos) =~= Seq::<char>::empty());
            lemma_fold_rows_full(cs, width, pos, pos, 0);
            lemma_fold_first(cs, width, pos, pos, 0);
            let s = head + seq!['\n'] + rest;
            lemma_newline_after_plain(head, rest, 0);
            assert(s.take(head.len() as int) =~= head);
            assert(s.skip(head.len() as int + 1) =~= rest);
            assert(head.push(c).drop_last() =~= head);
        } else {
            assert(cs.subrange(start, pos + 1).drop_last() =~= cs.subrange(start, pos));
            lemma_fold_rows_full(cs, width, pos + 1, start, col + cw);
        }
    }
}

proof fn lemma_fold_spaces_row(cs: Seq<char>, width: int, pos: int, start: int, col: int, last: Option<int>, p: int, k: int)
    requires
        0 <= start <= pos <= p < cs.len(),
        start < p,
        col == row_cols(cs.subrange(start, pos)),
        forall|q: int| pos <= q < p && q > start ==> row_cols(#[trigger] cs.subrange(start, q + 1)) <= width,
        row_cols(cs.subrange(start, p + 1)) > width,
        start < k <= p,
        cs[k] == ' ',
        forall|j: int| k < j <= p ==> cs[j] != ' ',
        match last {
            Some(x) => start <= x < pos && cs[x] == ' ' && forall|j: int| x < j < pos ==> cs[j] != ' ',
            None => forall|j: int| start <= j < pos ==> cs[j] != ' ',
        },
    ensures
        fold_chars_from(cs, width, true, pos, start, col, last) == trim_end_ws(cs.subrange(start, k + 1)) + seq!['\n']
            + fold_chars_from(cs, width, true, skip_space_chars(cs, k + 1), skip_space_chars(cs, k + 1), 0, None),
    decreases p - pos,
{
    let c = cs[pos];
    let cw = fold_char_width(c, col);
    assert(cs.subrange(start, pos + 1).drop_last() =~= cs.subrange(start, pos));
    assert(cs.subrange(start, pos + 1).last() == c);
    let last2 = if c == ' ' { Some(pos) } else { last };
    if pos < p {
        if pos > start {
            assert(row_cols(cs.subrange(start, pos + 1)) <= width);
        }
        lemma_fold_spaces_row(cs, width, pos + 1, start, col + cw, last2, p, k);
    } else {
        if c == ' ' {
            assert(k == p);
        } else {
            match last {
                Some(x) => {
                    if x < k {
                        assert(cs[k] != ' ');
                    }
                    if x > k {
                        assert(cs[x] != ' ');
                    }
                },
                None => {
                    assert(cs[k] != ' ');
                },
            }
        }
        assert(last2 == Some(k));
    }
}

/// `fold -s`: a row that does not fit breaks after the last space before
/// the character that overflows it (that character included), trailing
/// blanks dropped; the next row starts at the first non-space after it.
/// Here the row starts at `start`, the character at `p` is the first that
/// does not fit, and `k` is the last space in `start + 1 ..= p`.
pub proof fn lemma_fold_spaces_last_space(cs: Seq<char>, width: int, start: int, p: int, k: int)
    requires
        0 <= start < p < cs.len(),
        forall|q: int| start < q < p ==> row_cols(#[trigger] cs.subrange(start, q + 1)) <= width,
        row_cols(cs.subrange(start, p + 1)) > width,
        start < k <= p,
        cs[k] == ' ',
        forall|j: int| k < j <= p ==> cs[j] != ' ',
    ensures
        fold_chars_from(cs, width, true, start, start, 0, None) == trim_end_ws(cs.subrange(start, k + 1)) + seq!['\n']
            + fold_chars_from(cs, width, true, skip_space_chars(cs, k + 1), skip_space_chars(cs, k + 1), 0, None),
{
    assert(cs.subrange(start, start) =~= Seq::<char>::empty());
    lemma_fold_spaces_row(cs, width, start, start, 0, None, p, k);
}

/// What `fold` prints for a line without `-s` keeps the line, every row
/// of it fits the width or is a single character wider than it, and every
/// row but the last is full (its next character would not fit on it).
pub proof fn lemma_fold_line_chars(line: Seq<char>, width: int)
    requires
        no_newline(line),
    ensures
        strip_newlines(fold_chars_from(line, width, false, 0, 0, 0, None)) == line,
        rows_fit(fold_chars_from(line, width, false, 0, 0, 0, None), width),
        rows_full(fold_chars_from(line, width, false, 0, 0, 0, None), width),
{
    lemma_fold_rows_full(line, width, 0, 0, 0);
    lemma_fold_keeps_text(line, width, 0, 0, 0);
    assert(line.subrange(0, line.len() as int) =~= line);
    assert(line.subrange(0, 0) =~= Seq::<char>::empty());
    lemma_fold_rows_fit(line, width, 0, 0, 0);
}

fn trim_end_ws_exec(v: &[char]) -> (r: Vec<char>)
    ensures
        r@ == trim_end_ws(v@),
{
    let mut e = v.len();
    proof {
        assert(v@.take(v.len() as int) =~= v@);
    }
    while e > 0 && is_white_char(v[e - 1])
        invariant
            e <= v.len(),
            trim_end_ws(v@.take(e as int)) == trim_end_ws(v@),
        decreases e,
    {
        proof {
            assert(v@.take(e as int).drop_last() =~= v@.take(e - 1));
        }
        e -= 1;
    }
    let r = slice_chars(v, 0, e);
    proof {
        assert(r@ =~= v@.take(e as int));
    }
    r
}

/// Folds a line at `width` columns (at spaces with `spaces`): the text
/// with a newline at each break, as `fold_chars_from` says. A character
/// wider than the width stands alone on its row.
pub fn fold_line_chars(line: &str, width: usize, spaces: bool) -> (r: String)
    ensures
        r@ == fold_chars_from(line@, width as int, spaces, 0, 0, 0, None),
{
    let cs = chars_of(line);
    let mut out = String::new();
    let mut pos: usize = 0;
    let mut start: usize = 0;
    let mut col: usize = 0;
    let mut last: Option<usize> = None;
    while pos < cs.len()
        invariant
            start <= pos <= cs.len(),
            cs@ == line@,
            col <= width || col <= 8,
            pos == start ==> col == 0,
            match last {
                Some(l) => l <= pos,
                None => true,
            },
            fold_chars_from(cs@, width as int, spaces, 0, 0, 0, None) == out@ + fold_chars_from(cs@, width as int, spaces,
                pos as int, start as int, col as int, match last {
                    Some(l) => Some(l as int),
                    None => None,
                }),
        decreases cs.len() - start, cs.len() - pos,
    {
        let c = cs[pos];
        let cw = get_char_width(c, col);
        if spaces && c == ' ' {
            last = Some(pos);
        }
        let ghost before = out@;
        if pos > start && (col > width || cw > width - col) {
            let use_space = match last {
                Some(l) => spaces && l > start,
                None => false,
            };
            if use_space {
                let sp = match last {
                    Some(l) => l,
                    None => 0,
                };
                let piece = trim_end_ws_exec(&slice_chars(&cs, start, sp + 1));
                push_chars(&mut out, &piece);
                push_char(&mut out, '\n');
                let mut next = sp + 1;
                while next < cs.len() && cs[next] == ' '
                    invariant
                        sp + 1 <= next <= cs.len(),
                        skip_space_chars(cs@, sp + 1) == skip_space_chars(cs@, next as int),
                    decreases cs.len() - next,
                {
                    next += 1;
                }
                proof {
                    assert(out@ =~= before + (trim_end_ws(cs@.subrange(start as int, sp + 1)) + seq!['\n']));
                    assert(before + (trim_end_ws(cs@.subrange(start as int, sp + 1)) + seq!['\n']
                        + fold_chars_from(cs@, width as int, spaces, next as int, next as int, 0, None))
                        =~= out@ + fold_chars_from(cs@, width as int, spaces, next as int, next as int, 0, None));
                }
                pos = next;
                start = next;
                col = 0;
                last = None;
            } else {
                push_chars(&mut out, &slice_chars(&cs, start, pos));
                push_char(&mut out, '\n');
                proof {
                    assert(out@ =~= before + (cs@.subrange(start as int, pos as int) + seq!['\n']));
                    assert(before + (cs@.subrange(start as int, pos as int) + seq!['\n']
                        + fold_chars_from(cs@, width as int, spaces, pos as int, pos as int, 0, None))
                        =~= out@ + fold_chars_from(cs@, width as int, spaces, pos as int, pos as int, 0, None));
                }
                start = pos;
                col = 0;
                last = None;
            }
        } else {
            col = col + cw;
            pos += 1;
        }
    }
    if start < cs.len() {
        let ghost before = out@;
        push_chars(&mut out, &slice_chars(&cs, start, cs.len()));
    }
    proof {
        assert(out@ + Seq::<char>::empty() =~= out@);
    }
    out
}

/// The text `String::from_utf8_lossy` makes of the bytes (malformed
/// sequences replaced); a function of the bytes alone.
pub uninterp spec fn lossy_of(bytes: Seq<u8>) -> Seq<char>;

/// `String::from_utf8_lossy`.
#[verifier::external_body]
fn utf8_lossy(bytes: &[u8]) -> (r: String)
    ensures
        r@ == lossy_of(bytes@),
{
    String::from_utf8_lossy(bytes).into_owned()
}

/// The last space among `b[from..to]`.
pub open spec fn last_space_in(b: Seq<u8>, from: int, to: int) -> Option<int>
    decreases to - from,
{
    if to <= from {
        None
    } else if b[to - 1] == 32 {
        Some(to - 1)
    } else {
        last_space_in(b, from, to - 1)
    }
}

/// Whether a character of the UTF-8 bytes starts at `i` (or `i` is the end).
pub open spec fn is_boundary(b: Seq<u8>, i: int) -> bool {
    i >= b.len() || b[i] < 0x80 || b[i] >= 0xC0
}

/// The last boundary at or before `e` and after `pos`, or `pos`.
pub open spec fn back_to_boundary(b: Seq<u8>, pos: int, e: int) -> int
    decreases e - pos,
{
    if e > pos && !is_boundary(b, e) {
        back_to_boundary(b, pos, e - 1)
    } else {
        e
    }
}

pub open spec fn skip_space_bytes(b: Seq<u8>, i: int) -> int
    decreases b.len() - i,
{
    if 0 <= i < b.len() && b[i] == 32 {
        skip_space_bytes(b, i + 1)
    } else {
        i
    }
}

pub proof fn lemma_byte_scans(b: Seq<u8>, pos: int, e: int, from: int)
    requires
        0 <= pos <= e,
        0 <= from,
    ensures
        pos <= back_to_boundary(b, pos, e) <= e,
        from <= skip_space_bytes(b, from),
        from <= b.len() ==> skip_space_bytes(b, from) <= b.len(),
        match last_space_in(b, pos, e) {
            Some(k) => pos <= k < e,
            None => true,
        },
    decreases e - pos, b.len() - from,
{
    if e > pos {
        lemma_byte_scans(b, pos, e - 1, from);
    }
    if 0 <= from < b.len() && b[from] == 32 {
        lemma_byte_scans(b, pos, e, from + 1);
    }
}

/// What folding the bytes `b` prints from `pos` on: pieces of at most
/// `width` bytes, broken after the last space with `spaces`, else not
/// inside a character when it can be helped; each piece read leniently
/// as UTF-8.
pub open spec fn fold_bytes_from(b: Seq<u8>, width: int, spaces: bool, pos: int) -> Seq<char>
    decreases b.len() - pos,
{
    if pos < 0 || pos >= b.len() || width < 1 {
        Seq::empty()
    } else {
        let end = if width >= b.len() - pos { b.len() as int } else { pos + width };
        proof {
            lemma_byte_scans(b, pos, end, end);
        }
        if spaces && end < b.len() && last_space_in(b, pos, end) is Some {
            let ae = last_space_in(b, pos, end)->Some_0 + 1;
            let next = skip_space_bytes(b, ae);
            proof {
                lemma_byte_scans(b, pos, end, ae);
            }
            lossy_of(b.subrange(pos, ae)) + seq!['\n'] + fold_bytes_from(b, width, spaces, next)
        } else {
            let ae0 = back_to_boundary(b, pos, end);
            let ae = if ae0 == pos { end } else { ae0 };
            lossy_of(b.subrange(pos, ae)) + (if ae < b.len() { seq!['\n'] } else { Seq::empty() })
                + fold_bytes_from(b, width, spaces, ae)
        }
    }
}

/// The last space of a window is a space of it with none after it in the
/// window, and there is none only when the window holds no space.
pub proof fn lemma_last_space(b: Seq<u8>, from: int, to: int)
    requires
        0 <= from,
        to <= b.len(),
    ensures
        match last_space_in(b, from, to) {
            Some(k) => from <= k < to && b[k] == 32 && forall|j: int| k < j < to ==> b[j] != 32,
            None => forall|j: int| from <= j < to ==> b[j] != 32,
        },
    decreases to - from,
{
    if to > from && b[to - 1] != 32 {
        lemma_last_space(b, from, to - 1);
    }
}

/// `fold -b -s`: when a row of `width` bytes from `pos` is not the end of
/// the line and holds a space, the row ends after the last space `k` in it
/// (the spaces after it are skipped), and folding goes on from there.
pub proof fn lemma_fold_bytes_at_last_space(b: Seq<u8>, width: int, pos: int, k: int)
    requires
        0 <= pos,
        1 <= width,
        pos + width < b.len(),
        pos <= k < pos + width,
        b[k] == 32,
        forall|j: int| k < j < pos + width ==> b[j] != 32,
    ensures
        fold_bytes_from(b, width, true, pos) == lossy_of(b.subrange(pos, k + 1)) + seq!['\n']
            + fold_bytes_from(b, width, true, skip_space_bytes(b, k + 1)),
{
    lemma_last_space(b, pos, pos + width);
    let r = last_space_in(b, pos, pos + width);
    if r is None {
        assert(b[k] != 32);
    }
    let k2 = r->Some_0;
    if k2 < k {
        assert(b[k] != 32);
    }
    if k2 > k {
        assert(b[k2] != 32);
    }
}

proof fn lemma_back_to_boundary(b: Seq<u8>, pos: int, e: int)
    requires
        0 <= pos <= e,
    ensures
        pos <= back_to_boundary(b, pos, e) <= e,
        back_to_boundary(b, pos, e) == pos || back_to_boundary(b, pos, e) >= b.len()
            || b[back_to_boundary(b, pos, e)] < 0x80 || b[back_to_boundary(b, pos, e)] >= 0xC0,
        forall|j: int| back_to_boundary(b, pos, e) < j <= e ==> j < b.len() && 0x80 <= #[trigger] b[j] < 0xC0,
    decreases e - pos,
{
    if e > pos && !is_boundary(b, e) {
        lemma_back_to_boundary(b, pos, e - 1);
    }
}

/// `fold -b`: a row that does not reach the end of the line takes `width`
/// bytes, less the bytes of a character that would be cut (bytes
/// 0x80..0xBF continue a character), but never nothing; with `-s` this
/// holds when the row holds no space.
pub proof fn lemma_fold_bytes_row(b: Seq<u8>, width: int, spaces: bool, pos: int)
    requires
        0 <= pos,
        1 <= width,
        pos + width < b.len(),
        spaces ==> forall|j: int| pos <= j < pos + width ==> b[j] != 32,
    ensures
        ({
            let e = pos + width;
            let ae = if back_to_boundary(b, pos, e) == pos { e } else { back_to_boundary(b, pos, e) };
            &&& pos < ae <= e
            &&& forall|j: int| ae < j <= e && back_to_boundary(b, pos, e) > pos ==> 0x80 <= #[trigger] b[j] < 0xC0
            &&& (b[e] < 0x80 || b[e] >= 0xC0) ==> ae == e
            &&& fold_bytes_from(b, width, spaces, pos) == lossy_of(b.subrange(pos, ae)) + seq!['\n']
                + fold_bytes_from(b, width, spaces, ae)
        }),
{
    lemma_back_to_boundary(b, pos, pos + width);
    lemma_last_space(b, pos, pos + width);
}

/// What folding a line by bytes prints: the line itself when it fits.
pub open spec fn fold_bytes_spec(line: Seq<char>, width: int, spaces: bool) -> Seq<char> {
    if vstd::utf8::encode_utf8(line).len() <= width {
        line
    } else {
        fold_bytes_from(vstd::utf8::encode_utf8(line), width, spaces, 0)
    }
}

/// Folds a line at `width` bytes (at spaces with `spaces`), as
/// `fold_bytes_spec` says.
pub fn fold_line_bytes(line: &str, width: usize, spaces: bool) -> (r: String)
    requires
        width >= 1,
    ensures
        r@ == fold_bytes_spec(line@, width as int, spaces),
{
    let b = line.as_bytes();
    if b.len() <= width {
        return string_of(&chars_of(line));
    }
    let mut out = String::new();
    let mut pos: usize = 0;
    while pos < b.len()
        invariant
            pos <= b.len(),
            width >= 1,
            b@ == line.spec_bytes(),
            fold_bytes_from(b@, width as int, spaces, 0) == out@ + fold_bytes_from(b@, width as int, spaces, pos as int),
        decreases b.len() - pos,
    {
        let ghost before = out@;
        let end = if width >= b.len() - pos { b.len() } else { pos + width };
        proof {
            lemma_byte_scans(b@, pos as int, end as int, end as int);
        }
        let mut sp_found: Option<usize> = None;
        if spaces && end < b.len() {
            let mut t = end;
            while t > pos && b[t - 1] != 32
                invariant
                    pos <= t <= end,
                    end <= b.len(),
                    last_space_in(b@, pos as int, end as int) == last_space_in(b@, pos as int, t as int),
                decreases t - pos,
            {
                t -= 1;
            }
            if t > pos {
                sp_found = Some(t - 1);
            }
        }
        match sp_found {
            Some(sp) => {
                let ae = sp + 1;
                let piece = utf8_lossy(slice_bytes(b, pos, ae).as_slice());
                out.append(piece.as_str());
                push_char(&mut out, '\n');
                let mut next = ae;
                while next < b.len() && b[next] == 32
                    invariant
                        ae <= next <= b.len(),
                        skip_space_bytes(b@, ae as int) == skip_space_bytes(b@, next as int),
                    decreases b.len() - next,
                {
                    next += 1;
                }
                proof {
                    assert(out@ =~= before + (lossy_of(b@.subrange(pos as int, ae as int)) + seq!['\n']));
                    assert(before + (lossy_of(b@.subrange(pos as int, ae as int)) + seq!['\n']
                        + fold_bytes_from(b@, width as int, spaces, next as int))
                        =~= out@ + fold_bytes_from(b@, width as int, spaces, next as int));
                }
                pos = next;
            },
            None => {
                let mut ae = end;
                while ae > pos && !(ae >= b.len() || b[ae] < 0x80 || b[ae] >= 0xC0)
                    invariant
                        pos <= ae <= end,
                        end <= b.len(),
                        back_to_boundary(b@, pos as int, end as int) == back_to_boundary(b@, pos as int, ae as int),
                    decreases ae - pos,
                {
                    ae -= 1;
                }
                if ae == pos {
                    ae = end;
                }
                let piece = utf8_lossy(slice_bytes(b, pos, ae).as_slice());
                out.append(piece.as_str());
                if ae < b.len() {
                    push_char(&mut out, '\n');
                }
                proof {
                    let nl = if ae < b.len() { seq!['\n'] } else { Seq::<char>::empty() };
                    assert(out@ =~= before + (lossy_of(b@.subrange(pos as int, ae as int)) + nl));
                    assert(before + (lossy_of(b@.subrange(pos as int, ae as int)) + nl
                        + fold_bytes_from(b@, width as int, spaces, ae as int))
                        =~= out@ + fold_bytes_from(b@, width as int, spaces, ae as int));
                }
                pos = ae;
            },
        }
    }
    proof {
        assert(out@ + Seq::<char>::empty() =~= out@);
    }
    out
}

/// The bytes `b[from..to]`.
fn slice_bytes(b: &[u8], from: usize, to: usize) -> (r: Vec<u8>)
    requires
        from <= to <= b.len(),
    ensures
        r@ == b@.subrange(from as int, to as int),
{
    let mut r: Vec<u8> = Vec::new();
    let mut k = from;
    while k < to
        invariant
            from <= k <= to <= b.len(),
            r@ == b@.subrange(from as int, k as int),
        decreases to - k,
    {
        r.push(b[k]);
        proof {
            assert(b@.subrange(from as int, k + 1) =~= b@.subrange(from as int, k as int).push(b@[k as int]));
        }
        k += 1;
    }
    r
}

/// The pieces of `s[begin..]` between the sequences CR LF, scanning from
/// `i` (as `str::split("\r\n")` makes them).
pub open spec fn crlf_pieces(s: Seq<char>, begin: int, i: int) -> Seq<Seq<char>>
    decreases s.len() - i,
{
    if i >= s.len() {
        seq![s.subrange(begin, s.len() as int)]
    } else if i + 1 < s.len() && s[i] == '\r' && s[i + 1] == '\n' {
        seq![s.subrange(begin, i)] + crlf_pieces(s, i + 2, i + 2)
    } else {
        crlf_pieces(s, begin, i + 1)
    }
}

/// The line ending of a text: CR LF when it holds one, else CR when it
/// holds one, else LF.
pub open spec fn line_ending_of(s: Seq<char>) -> Seq<char> {
    if crate::text::seq_contains(s, "\r\n"@) {
        "\r\n"@
    } else if s.contains('\r') {
        "\r"@
    } else {
        "\n"@
    }
}

/// The lines of a text split at its line ending.
pub open spec fn content_pieces(s: Seq<char>) -> Seq<Seq<char>> {
    if crate::text::seq_contains(s, "\r\n"@) {
        crlf_pieces(s, 0, 0)
    } else if s.contains('\r') {
        crate::text::split_on(s, '\r')
    } else {
        crate::text::split_on(s, '\n')
    }
}

/// What `fold` prints for one line: nothing for an empty one, else the
/// line without carriage returns at its end, folded.
pub open spec fn fold_line_spec(line: Seq<char>, o: Options) -> Seq<char> {
    if line.len() == 0 {
        Seq::empty()
    } else {
        let t = crate::patch::trim_end_char(line, '\r');
        if o.bytes {
            fold_bytes_spec(t, o.width as int, o.spaces)
        } else {
            fold_chars_from(t, o.width as int, o.spaces, 0, 0, 0, None)
        }
    }
}

/// What `fold` prints for the lines `lines[k..]` of a text.
pub open spec fn fold_lines_from(lines: Seq<Seq<char>>, k: int, o: Options, ending: Seq<char>, ends_nl: bool) -> Seq<char>
    decreases lines.len() - k,
{
    if k < 0 || k >= lines.len() || (k == lines.len() - 1 && lines[k].len() == 0 && ends_nl) {
        Seq::empty()
    } else {
        fold_line_spec(lines[k], o) + (if k < lines.len() - 1 || ends_nl { ending } else { Seq::empty() })
            + fold_lines_from(lines, k + 1, o, ending, ends_nl)
    }
}

/// What `fold` prints for a text.
pub open spec fn fold_content_spec(content: Seq<char>, o: Options) -> Seq<char> {
    let ends_nl = content.len() > 0 && (content.last() == '\n' || content.last() == '\r');
    fold_lines_from(content_pieces(content), 0, o, line_ending_of(content), ends_nl)
}


/// Splits a text at CR LF.
fn split_crlf(v: &Vec<char>) -> (r: Vec<String>)
    ensures
        strings_view(r@) == crlf_pieces(v@, 0, 0),
{
    let mut r: Vec<String> = Vec::new();
    let mut begin: usize = 0;
    let mut i: usize = 0;
    while i < v.len()
        invariant
            begin <= i <= v.len(),
            crlf_pieces(v@, 0, 0) == strings_view(r@) + crlf_pieces(v@, begin as int, i as int),
        decreases v.len() - i,
    {
        if i + 1 < v.len() && v[i] == '\r' && v[i + 1] == '\n' {
            let piece = string_of(&slice_chars(v, begin, i));
            let ghost before = strings_view(r@);
            r.push(piece);
            proof {
                assert(strings_view(r@) =~= before.push(piece@));
                assert(before + (seq![v@.subrange(begin as int, i as int)] + crlf_pieces(v@, i + 2, i + 2))
                    =~= strings_view(r@) + crlf_pieces(v@, i + 2, i + 2));
            }
            i = i + 2;
            begin = i;
        } else {
            i += 1;
        }
    }
    let piece = string_of(&slice_chars(v, begin, v.len()));
    let ghost before = strings_view(r@);
    r.push(piece);
    proof {
        assert(strings_view(r@) =~= before.push(piece@));
    }
    r
}

/// What `fold` prints for one line.
fn fold_line(line: &str, o: &Options) -> (r: String)
    requires
        o.width >= 1,
    ensures
        r@ == fold_line_spec(line@, *o),
{
    let v = chars_of(line);
    if v.len() == 0 {
        return String::new();
    }
    let t = string_of(&crate::patch::trim_end_chars(&v, '\r'));
    if o.bytes {
        fold_line_bytes(t.as_str(), o.width, o.spaces)
    } else {
        fold_line_chars(t.as_str(), o.width, o.spaces)
    }
}

/// What `fold` prints for a text: each line folded, the text's own line
/// ending kept, as `fold_content_spec` says.
pub fn fold_content(content: &str, opts: &Options) -> (r: String)
    requires
        opts.width >= 1,
    ensures
        r@ == fold_content_spec(content@, *opts),
{
    let v = chars_of(content);
    let crlf = crate::text::contains_text(&v, "\r\n");
    let cr = crate::text::contains_char(&v, '\r');
    let ending = if crlf { "\r\n" } else if cr { "\r" } else { "\n" };
    let lines: Vec<String> = if crlf {
        split_crlf(&v)
    } else {
        let mut ps: Vec<String> = Vec::new();
        crate::text::push_pieces(&mut ps, content, if cr { '\r' } else { '\n' });
        proof {
            assert(strings_view(ps@) =~= content_pieces(content@));
        }
        ps
    };
    proof {
        assert(v@.contains('\r') == content@.contains('\r'));
    }
    let ghost sl = strings_view(lines@);
    assert(sl == content_pieces(content@));
    let ends_nl = v.len() > 0 && (v[v.len() - 1] == '\n' || v[v.len() - 1] == '\r');
    let mut out = String::new();
    let mut k: usize = 0;
    while k < lines.len()
        invariant
            k <= lines.len(),
            sl == strings_view(lines@),
            sl == content_pieces(content@),
            opts.width >= 1,
            ending@ == line_ending_of(content@),
            fold_content_spec(content@, *opts) == out@ + fold_lines_from(sl, k as int, *opts, ending@, ends_nl),
            ends_nl == (content@.len() > 0 && (content@.last() == '\n' || content@.last() == '\r')),
        ensures
            fold_content_spec(content@, *opts) == out@,
        decreases lines.len() - k,
    {
        let lv = chars_of(lines[k].as_str());
        assert(lv@ == sl[k as int]);
        if k == lines.len() - 1 && lv.len() == 0 && ends_nl {
            proof {
                assert(out@ + Seq::<char>::empty() =~= out@);
            }
            break;
        }
        let ghost before = out@;
        let piece = fold_line(lines[k].as_str(), opts);
        out.append(piece.as_str());
        if k < lines.len() - 1 || ends_nl {
            out.append(ending);
        }
        proof {
            let e = if k < sl.len() - 1 || ends_nl { ending@ } else { Seq::<char>::empty() };
            assert(out@ =~= before + (fold_line_spec(sl[k as int], *opts) + e));
            assert(before + (fold_line_spec(sl[k as int], *opts) + e + fold_lines_from(sl, k + 1, *opts, ending@, ends_nl))
                =~= out@ + fold_lines_from(sl, k + 1, *opts, ending@, ends_nl));
        }
        k += 1;
    }
    proof {
        assert(out@ + Seq::<char>::empty() =~= out@);
    }
    out
}

/// Whether an escape sequence of ISO-2022-JP starts at `i`.
pub open spec fn jis_escape_at(b: Seq<u8>, i: int) -> bool {
    b[i] == 0x1B && (
        (i + 2 < b.len() && b[i + 1] == 0x24 && (b[i + 2] == 0x42 || b[i + 2] == 0x40))
        || (i + 3 < b.len() && b[i + 1] == 0x24 && b[i + 2] == 0x28 && b[i + 3] == 0x44)
        || (i + 2 < b.len() && b[i + 1] == 0x28 && (b[i + 2] == 0x42 || b[i + 2] == 0x4A)))
}

/// Whether the bytes hold an ISO-2022-JP escape (`ESC $ B`, `ESC $ @`,
/// `ESC $ ( D`, `ESC ( B`, `ESC ( J`), one starting before the last two
/// bytes.
pub open spec fn has_jis_escape(b: Seq<u8>) -> bool {
    exists|i: int| 0 <= i && i + 2 < b.len() && #[trigger] jis_escape_at(b, i)
}

/// Whether the bytes hold an ISO-2022-JP escape.
pub fn contains_jis_escape(bytes: &[u8]) -> (r: bool)
    ensures
        r == has_jis_escape(bytes@),
{
    let mut i: usize = 0;
    while i < bytes.len() && bytes.len() - i > 2
        invariant
            i <= bytes.len(),
            forall|j: int| 0 <= j < i ==> !#[trigger] jis_escape_at(bytes@, j),
        decreases bytes.len() - i,
    {
        if bytes[i] == 0x1B {
            if (bytes[i + 1] == 0x24 && (bytes[i + 2] == 0x42 || bytes[i + 2] == 0x40))
                || (bytes.len() - i > 3 && bytes[i + 1] == 0x24 && bytes[i + 2] == 0x28 && bytes[i + 3] == 0x44)
                || (bytes[i + 1] == 0x28 && (bytes[i + 2] == 0x42 || bytes[i + 2] == 0x4A)) {
                assert(jis_escape_at(bytes@, i as int));
                return true;
            }
        }
        i += 1;
    }
    proof {
        assert forall|j: int| 0 <= j && j + 2 < bytes@.len() implies !#[trigger] jis_escape_at(bytes@, j) by {
            assert(j < i);
        }
    }
    false
}

/// The Shift_JIS score `fold` gives `b[i..]`: two for a lead and trail
/// pair, one for a half-width kana, minus one for another byte above ASCII.
pub open spec fn fold_sjis_from(b: Seq<u8>, i: int) -> int
    decreases b.len() - i,
{
    if i >= b.len() || i < 0 {
        0
    } else {
        let x = b[i];
        if x <= 0x7F {
            fold_sjis_from(b, i + 1)
        } else if (0x81 <= x <= 0x9F) || (0xE0 <= x <= 0xFC) {
            if i + 1 < b.len() {
                let y = b[i + 1];
                if (0x40 <= y <= 0x7E) || (0x80 <= y <= 0xFC) {
                    2 + fold_sjis_from(b, i + 2)
                } else {
                    -1 + fold_sjis_from(b, i + 1)
                }
            } else {
                fold_sjis_from(b, i + 1)
            }
        } else if 0xA1 <= x <= 0xDF {
            1 + fold_sjis_from(b, i + 1)
        } else {
            -1 + fold_sjis_from(b, i + 1)
        }
    }
}

/// The EUC-JP score `fold` gives `b[i..]`: two for a JIS X 0208 pair, a
/// half-width kana or a JIS X 0212 triple, minus one for another byte
/// above ASCII.
pub open spec fn fold_eucjp_from(b: Seq<u8>, i: int) -> int
    decreases b.len() - i,
{
    if i >= b.len() || i < 0 {
        0
    } else {
        let x = b[i];
        if x <= 0x7F {
            fold_eucjp_from(b, i + 1)
        } else if 0xA1 <= x <= 0xFE {
            if i + 1 < b.len() && 0xA1 <= b[i + 1] <= 0xFE {
                2 + fold_eucjp_from(b, i + 2)
            } else {
                -1 + fold_eucjp_from(b, i + 1)
            }
        } else if x == 0x8E {
            if i + 1 < b.len() && 0xA1 <= b[i + 1] <= 0xDF {
                2 + fold_eucjp_from(b, i + 2)
            } else {
                -1 + fold_eucjp_from(b, i + 1)
            }
        } else if x == 0x8F {
            if i + 2 < b.len() && 0xA1 <= b[i + 1] <= 0xFE && 0xA1 <= b[i + 2] <= 0xFE {
                2 + fold_eucjp_from(b, i + 3)
            } else {
                -1 + fold_eucjp_from(b, i + 1)
            }
        } else {
            -1 + fold_eucjp_from(b, i + 1)
        }
    }
}

proof fn lemma_fold_scores(b: Seq<u8>, i: int)
    requires
        0 <= i <= b.len(),
    ensures
        -(b.len() - i) <= fold_sjis_from(b, i) <= b.len() - i,
        -(b.len() - i) <= fold_eucjp_from(b, i) <= b.len() - i,
    decreases b.len() - i,
{
    if i < b.len() {
        lemma_fold_scores(b, i + 1);
        if i + 2 <= b.len() {
            lemma_fold_scores(b, i + 2);
        }
        if i + 3 <= b.len() {
            lemma_fold_scores(b, i + 3);
        }
    }
}

/// The Shift_JIS score of the bytes.
pub fn calc_sjis_score(bytes: &[u8]) -> (r: i32)
    requires
        bytes.len() <= i32::MAX,
    ensures
        r == fold_sjis_from(bytes@, 0),
{
    let mut score: i32 = 0;
    let mut i: usize = 0;
    proof {
        lemma_fold_scores(bytes@, 0);
    }
    while i < bytes.len()
        invariant
            i <= bytes.len() + 1,
            bytes.len() <= i32::MAX,
            score + fold_sjis_from(bytes@, i as int) == fold_sjis_from(bytes@, 0),
            -(i as int) <= score <= i,
        decreases bytes.len() + 1 - i,
    {
        proof {
            lemma_fold_scores(bytes@, i as int);
        }
        let b = bytes[i];
        if b <= 0x7F {
            i += 1;
        } else if (0x81 <= b && b <= 0x9F) || (0xE0 <= b && b <= 0xFC) {
            if i + 1 < bytes.len() {
                let b2 = bytes[i + 1];
                if (0x40 <= b2 && b2 <= 0x7E) || (0x80 <= b2 && b2 <= 0xFC) {
                    score += 2;
                    i += 2;
                } else {
                    score -= 1;
                    i += 1;
                }
            } else {
                i += 1;
            }
        } else if 0xA1 <= b && b <= 0xDF {
            score += 1;
            i += 1;
        } else {
            score -= 1;
            i += 1;
        }
    }
    score
}

/// The EUC-JP score of the bytes.
pub fn calc_eucjp_score(bytes: &[u8]) -> (r: i32)
    requires
        bytes.len() <= i32::MAX,
    ensures
        r == fold_eucjp_from(bytes@, 0),
{
    let mut score: i32 = 0;
    let mut i: usize = 0;
    while i < bytes.len()
        invariant
            i <= bytes.len() + 1,
            bytes.len() <= i32::MAX,
            score + fold_eucjp_from(bytes@, i as int) == fold_eucjp_from(bytes@, 0),
            -(i as int) <= score <= i,
        decreases bytes.len() + 1 - i,
    {
        let b = bytes[i];
        if b <= 0x7F {
            i += 1;
        } else if 0xA1 <= b && b <= 0xFE {
            if i + 1 < bytes.len() && 0xA1 <= bytes[i + 1] && bytes[i + 1] <= 0xFE {
                score += 2;
                i += 2;
            } else {
                score -= 1;
                i += 1;
            }
        } else if b == 0x8E {
            if i + 1 < bytes.len() && 0xA1 <= bytes[i + 1] && bytes[i + 1] <= 0xDF {
                score += 2;
                i += 2;
            } else {
                score -= 1;
                i += 1;
            }
        } else if b == 0x8F {
            if i + 2 < bytes.len() && 0xA1 <= bytes[i + 1] && bytes[i + 1] <= 0xFE && 0xA1 <= bytes[i + 2] && bytes[i + 2] <= 0xFE {
                score += 2;
                i += 3;
            } else {
                score -= 1;
                i += 1;
            }
        } else {
            score -= 1;
            i += 1;
        }
    }
    score
}

/// The encoding `fold` reads input in: UTF-8 after its byte order mark,
/// ISO-2022-JP when an escape of it occurs, UTF-8 when valid, else the
/// better score of Shift_JIS and EUC-JP (Shift_JIS on a tie).
pub open spec fn fold_encoding_of(b: Seq<u8>) -> TextEncoding {
    if b.len() >= 3 && b[0] == 0xEF && b[1] == 0xBB && b[2] == 0xBF {
        TextEncoding::Utf8
    } else if has_jis_escape(b) {
        TextEncoding::Iso2022Jp
    } else if vstd::utf8::valid_utf8(b) {
        TextEncoding::Utf8
    } else if fold_eucjp_from(b, 0) > fold_sjis_from(b, 0) {
        TextEncoding::EucJp
    } else {
        TextEncoding::ShiftJis
    }
}

/// The encoding `fold` reads input in.
pub fn detect_encoding(bytes: &[u8]) -> (r: TextEncoding)
    requires
        bytes.len() <= i32::MAX,
    ensures
        r == fold_encoding_of(bytes@),
{
    if bytes.len() >= 3 && bytes[0] == 0xEF && bytes[1] == 0xBB && bytes[2] == 0xBF {
        return TextEncoding::Utf8;
    }
    if contains_jis_escape(bytes) {
        return TextEncoding::Iso2022Jp;
    }
    if crate::grep::lines::is_valid_utf8(bytes) {
        return TextEncoding::Utf8;
    }
    let sjis = calc_sjis_score(bytes);
    let eucjp = calc_eucjp_score(bytes);
    if sjis > eucjp {
        TextEncoding::ShiftJis
    } else if eucjp > sjis {
        TextEncoding::EucJp
    } else {
        TextEncoding::ShiftJis
    }
}

/// Input as text, in the encoding `fold` detects.
pub fn decode_to_utf8(bytes: &[u8]) -> (r: String)
    requires
        bytes.len() <= i32::MAX,
    ensures
        r@ == decoded_of(fold_encoding_of(bytes@), bytes@),
{
    let enc = detect_encoding(bytes);
    crate::grep::lines::decode_in(enc, bytes)
}

} // verus!
