//! The text handling of `groff` that stands apart from its typesetting
//! state: character widths, SGR escapes, request arguments, escape names,
//! man page headers and the special characters.
use vstd::prelude::*;
use crate::text::{chars_of, string_of, push_char, push_chars};
use crate::find::expression::strings_view;

pub mod special;
pub mod render;
pub mod fill;
pub mod indent;
pub mod macros;
pub mod page;
pub mod roff;

verus! {

/// Whether `c` takes two columns on a terminal (CJK and full-width
/// ranges).
pub open spec fn wide_spec(c: char) -> bool {
    let cp = c as int;
    (0x1100 <= cp <= 0x115F) || (0x2E80 <= cp <= 0x9FFF) || (0xAC00 <= cp <= 0xD7A3) || (0xF900 <= cp <= 0xFAFF)
        || (0xFE10 <= cp <= 0xFE1F) || (0xFF00 <= cp <= 0xFF60) || (0x20000 <= cp <= 0x2FFFF)
}

/// Whether `c` takes two columns.
pub fn is_wide_char(c: char) -> (r: bool)
    ensures
        r == wide_spec(c),
{
    ('\u{1100}' <= c && c <= '\u{115F}') || ('\u{2E80}' <= c && c <= '\u{9FFF}') || ('\u{AC00}' <= c && c <= '\u{D7A3}')
        || ('\u{F900}' <= c && c <= '\u{FAFF}') || ('\u{FE10}' <= c && c <= '\u{FE1F}')
        || ('\u{FF00}' <= c && c <= '\u{FF60}') || ('\u{20000}' <= c && c <= '\u{2FFFF}')
}

/// The columns `c` takes: none for the zero-width space and the two
/// internal markers, two for a wide character, else one.
pub open spec fn width_spec(c: char) -> nat {
    if c == '\u{200B}' || c == '\u{E000}' || c == '\u{E001}' {
        0
    } else if wide_spec(c) {
        2
    } else {
        1
    }
}

/// The columns `c` takes.
pub fn char_width(c: char) -> (r: usize)
    ensures
        r == width_spec(c),
{
    if c == '\u{200B}' || c == '\u{E000}' || c == '\u{E001}' {
        0
    } else if is_wide_char(c) {
        2
    } else {
        1
    }
}

/// The columns of `s[i..]` outside SGR escapes (from ESC to `m`), being
/// inside one when `esc` holds.
pub open spec fn width_from(s: Seq<char>, i: int, esc: bool) -> nat
    decreases s.len() - i,
{
    if i < 0 || i >= s.len() {
        0
    } else if esc {
        width_from(s, i + 1, s[i] != 'm')
    } else if s[i] == '\x1b' {
        width_from(s, i + 1, true)
    } else {
        width_spec(s[i]) + width_from(s, i + 1, false)
    }
}

/// The columns of `s[i..]` are at most twice its length.
pub proof fn lemma_width_bound(s: Seq<char>, i: int, esc: bool)
    requires
        0 <= i <= s.len(),
    ensures
        width_from(s, i, esc) <= 2 * (s.len() - i),
    decreases s.len() - i,
{
    if i < s.len() {
        if esc {
            lemma_width_bound(s, i + 1, s[i] != 'm');
        } else if s[i] == '\x1b' {
            lemma_width_bound(s, i + 1, true);
        } else {
            lemma_width_bound(s, i + 1, false);
        }
    }
}

/// The columns of a text on a terminal, SGR escapes taking none.
pub fn visible_width(s: &str) -> (r: usize)
    requires
        2 * s@.len() <= usize::MAX,
    ensures
        r == width_from(s@, 0, false),
{
    let v = chars_of(s);
    let mut width: usize = 0;
    let mut esc = false;
    let mut i: usize = 0;
    proof {
        lemma_width_bound(v@, 0, false);
    }
    while i < v.len()
        invariant
            i <= v.len(),
            v@ == s@,
            2 * v@.len() <= usize::MAX,
            width + width_from(v@, i as int, esc) == width_from(v@, 0, false),
            width_from(v@, 0, false) <= 2 * v@.len(),
        decreases v.len() - i,
    {
        let c = v[i];
        if esc {
            if c == 'm' {
                esc = false;
            }
        } else if c == '\x1b' {
            esc = true;
        } else {
            width = width + char_width(c);
        }
        i += 1;
    }
    width
}

/// `s[i..]` without its SGR escapes.
pub open spec fn sgr_free_from(s: Seq<char>, i: int, esc: bool) -> Seq<char>
    decreases s.len() - i,
{
    if i < 0 || i >= s.len() {
        Seq::empty()
    } else if esc {
        sgr_free_from(s, i + 1, s[i] != 'm')
    } else if s[i] == '\x1b' {
        sgr_free_from(s, i + 1, true)
    } else {
        seq![s[i]] + sgr_free_from(s, i + 1, false)
    }
}

/// A text without its SGR escapes.
pub fn strip_sgr(s: &str) -> (r: String)
    ensures
        r@ == sgr_free_from(s@, 0, false),
{
    let v = chars_of(s);
    let mut out = String::new();
    let mut esc = false;
    let mut i: usize = 0;
    while i < v.len()
        invariant
            i <= v.len(),
            v@ == s@,
            out@ + sgr_free_from(v@, i as int, esc) == sgr_free_from(v@, 0, false),
        decreases v.len() - i,
    {
        let c = v[i];
        let ghost before = out@;
        if esc {
            if c == 'm' {
                esc = false;
            }
        } else if c == '\x1b' {
            esc = true;
        } else {
            push_char(&mut out, c);
            proof {
                assert(before + (seq![c] + sgr_free_from(v@, i + 1, false)) =~= out@ + sgr_free_from(v@, i + 1, false));
            }
        }
        i += 1;
    }
    proof {
        assert(out@ + Seq::<char>::empty() =~= out@);
    }
    out
}

/// The characters that may close a sentence after its mark.
pub open spec fn is_closer(c: char) -> bool {
    c == '"' || c == '\'' || c == ')' || c == ']' || c == '*' || c == '\u{2019}' || c == '\u{201D}'
}

/// `s` without the closing characters at its end.
pub open spec fn trim_closers(s: Seq<char>) -> Seq<char>
    decreases s.len(),
{
    if s.len() > 0 && is_closer(s.last()) {
        trim_closers(s.drop_last())
    } else {
        s
    }
}

/// Whether a word ends a sentence: without its SGR escapes and closing
/// quotes and brackets it ends in `.`, `!` or `?`; a final `\&` marker
/// stops that.
pub open spec fn sentence_end_spec(text: Seq<char>) -> bool {
    let plain = sgr_free_from(text, 0, false);
    let t = trim_closers(plain);
    !(plain.len() > 0 && plain.last() == '\u{E000}') && t.len() > 0 && (t.last() == '.' || t.last() == '!' || t.last() == '?')
}

/// Whether a word ends a sentence.
pub fn is_sentence_end(text: &str) -> (r: bool)
    ensures
        r == sentence_end_spec(text@),
{
    let plain = chars_of(strip_sgr(text).as_str());
    if plain.len() > 0 && plain[plain.len() - 1] == '\u{E000}' {
        return false;
    }
    let mut e = plain.len();
    proof {
        assert(plain@.take(plain.len() as int) =~= plain@);
    }
    while e > 0 && (plain[e - 1] == '"' || plain[e - 1] == '\'' || plain[e - 1] == ')' || plain[e - 1] == ']'
        || plain[e - 1] == '*' || plain[e - 1] == '\u{2019}' || plain[e - 1] == '\u{201D}')
        invariant
            e <= plain.len(),
            trim_closers(plain@.take(e as int)) == trim_closers(plain@),
        decreases e,
    {
        proof {
            assert(plain@.take(e as int).drop_last() =~= plain@.take(e - 1));
        }
        e -= 1;
    }
    proof {
        if e > 0 {
            assert(plain@.take(e as int).last() == plain@[e - 1]);
        }
        assert(trim_closers(plain@.take(e as int)) == plain@.take(e as int));
    }
    e > 0 && (plain[e - 1] == '.' || plain[e - 1] == '!' || plain[e - 1] == '?')
}

/// The number of backslashes `s[..e]` ends with.
pub open spec fn trailing_backslashes(s: Seq<char>, e: int) -> nat
    decreases e,
{
    if e <= 0 || e > s.len() || s[e - 1] != '\\' {
        0
    } else {
        1 + trailing_backslashes(s, e - 1)
    }
}

/// Whether a line ends in an escaped newline: an odd number of
/// backslashes at its end.
pub fn ends_with_continuation(s: &str) -> (r: bool)
    ensures
        r == (trailing_backslashes(s@, s@.len() as int) % 2 == 1),
{
    let v = chars_of(s);
    let mut e = v.len();
    let mut n: usize = 0;
    while e > 0 && v[e - 1] == '\\'
        invariant
            e <= v.len(),
            v@ == s@,
            n + e == v.len(),
            n + trailing_backslashes(v@, e as int) == trailing_backslashes(v@, v@.len() as int),
        decreases e,
    {
        e -= 1;
        n += 1;
    }
    n % 2 == 1
}

/// Whether `c` separates arguments.
pub open spec fn is_blank(c: char) -> bool {
    c == ' ' || c == '\t'
}

/// The first index at or after `i` that holds no blank.
pub open spec fn skip_blanks(s: Seq<char>, i: int) -> int
    decreases s.len() - i,
{
    if 0 <= i < s.len() && is_blank(s[i]) {
        skip_blanks(s, i + 1)
    } else {
        i
    }
}

/// A quoted argument from `i` (after its opening quote): the text up to
/// the closing quote, `""` standing for a quote; and where it ends.
pub open spec fn quoted_arg(s: Seq<char>, i: int) -> (Seq<char>, int)
    decreases s.len() - i,
{
    if i < 0 || i >= s.len() {
        (Seq::empty(), i)
    } else if s[i] == '"' {
        if i + 1 < s.len() && s[i + 1] == '"' {
            let rest = quoted_arg(s, i + 2);
            (seq!['"'] + rest.0, rest.1)
        } else {
            (Seq::empty(), i + 1)
        }
    } else {
        let rest = quoted_arg(s, i + 1);
        (seq![s[i]] + rest.0, rest.1)
    }
}

/// An unquoted argument from `i`: up to a blank, a backslash taking the
/// next character with it; and where it ends.
pub open spec fn bare_arg(s: Seq<char>, i: int) -> (Seq<char>, int)
    decreases s.len() - i,
{
    if i < 0 || i >= s.len() || is_blank(s[i]) {
        (Seq::empty(), i)
    } else if s[i] == '\\' && i + 1 < s.len() {
        let rest = bare_arg(s, i + 2);
        (seq![s[i], s[i + 1]] + rest.0, rest.1)
    } else {
        let rest = bare_arg(s, i + 1);
        (seq![s[i]] + rest.0, rest.1)
    }
}

pub proof fn lemma_quoted_arg_end(s: Seq<char>, i: int)
    requires
        0 <= i,
    ensures
        i <= quoted_arg(s, i).1,
        i <= s.len() ==> quoted_arg(s, i).1 <= s.len(),
    decreases s.len() - i,
{
    if 0 <= i < s.len() {
        if s[i] == '"' {
            if i + 1 < s.len() && s[i + 1] == '"' {
                lemma_quoted_arg_end(s, i + 2);
            }
        } else {
            lemma_quoted_arg_end(s, i + 1);
        }
    }
}

pub proof fn lemma_bare_arg_end(s: Seq<char>, i: int)
    requires
        0 <= i,
    ensures
        i <= bare_arg(s, i).1,
        i <= s.len() ==> bare_arg(s, i).1 <= s.len(),
        0 <= i < s.len() && !is_blank(s[i]) ==> i < bare_arg(s, i).1,
    decreases s.len() - i,
{
    if 0 <= i < s.len() && !is_blank(s[i]) {
        if s[i] == '\\' && i + 1 < s.len() {
            lemma_bare_arg_end(s, i + 2);
        } else {
            lemma_bare_arg_end(s, i + 1);
        }
    }
}

pub proof fn lemma_skip_blanks(s: Seq<char>, i: int)
    requires
        0 <= i,
    ensures
        i <= skip_blanks(s, i),
        i <= s.len() ==> skip_blanks(s, i) <= s.len(),
        0 <= skip_blanks(s, i) < s.len() ==> !is_blank(s[skip_blanks(s, i)]),
    decreases s.len() - i,
{
    if 0 <= i < s.len() && is_blank(s[i]) {
        lemma_skip_blanks(s, i + 1);
    }
}

/// The arguments of a request line from `i` on.
pub open spec fn args_from(s: Seq<char>, i: int) -> Seq<Seq<char>>
    decreases s.len() - i,
{
    if i < 0 || i > s.len() {
        Seq::empty()
    } else {
        let j = skip_blanks(s, i);
        proof {
            lemma_skip_blanks(s, i);
        }
        if j >= s.len() {
            Seq::empty()
        } else if s[j] == '"' {
            let (a, k) = quoted_arg(s, j + 1);
            proof {
                lemma_quoted_arg_end(s, j + 1);
            }
            seq![a] + args_from(s, k)
        } else {
            let (a, k) = bare_arg(s, j);
            proof {
                lemma_bare_arg_end(s, j);
            }
            seq![a] + args_from(s, k)
        }
    }
}

/// Reads a quoted argument from `i` (after its opening quote).
fn read_quoted(v: &Vec<char>, i: usize) -> (r: (String, usize))
    requires
        i <= v.len(),
    ensures
        r.0@ == quoted_arg(v@, i as int).0,
        r.1 as int == quoted_arg(v@, i as int).1,
        r.1 <= v.len(),
{
    let mut arg = String::new();
    let mut j = i;
    while j < v.len()
        invariant
            i <= j <= v.len(),
            quoted_arg(v@, i as int).0 == arg@ + quoted_arg(v@, j as int).0,
            quoted_arg(v@, i as int).1 == quoted_arg(v@, j as int).1,
        decreases v.len() - j,
    {
        let ghost before = arg@;
        if v[j] == '"' {
            if j + 1 < v.len() && v[j + 1] == '"' {
                push_char(&mut arg, '"');
                proof {
                    assert(before + (seq!['"'] + quoted_arg(v@, j + 2).0) =~= arg@ + quoted_arg(v@, j + 2).0);
                }
                j += 2;
                continue;
            }
            proof {
                assert(arg@ + Seq::<char>::empty() =~= arg@);
            }
            return (arg, j + 1);
        }
        push_char(&mut arg, v[j]);
        proof {
            assert(before + (seq![v@[j as int]] + quoted_arg(v@, j + 1).0) =~= arg@ + quoted_arg(v@, j + 1).0);
        }
        j += 1;
    }
    proof {
        assert(arg@ + Seq::<char>::empty() =~= arg@);
    }
    (arg, j)
}

/// Reads an unquoted argument from `i`.
fn read_bare(v: &Vec<char>, i: usize) -> (r: (String, usize))
    requires
        i <= v.len(),
    ensures
        r.0@ == bare_arg(v@, i as int).0,
        r.1 as int == bare_arg(v@, i as int).1,
        r.1 <= v.len(),
{
    let mut arg = String::new();
    let mut j = i;
    while j < v.len() && v[j] != ' ' && v[j] != '\t'
        invariant
            i <= j <= v.len(),
            bare_arg(v@, i as int).0 == arg@ + bare_arg(v@, j as int).0,
            bare_arg(v@, i as int).1 == bare_arg(v@, j as int).1,
        decreases v.len() - j,
    {
        let ghost before = arg@;
        if v[j] == '\\' && j + 1 < v.len() {
            push_char(&mut arg, v[j]);
            push_char(&mut arg, v[j + 1]);
            proof {
                assert(before + (seq![v@[j as int], v@[j + 1]] + bare_arg(v@, j + 2).0) =~= arg@ + bare_arg(v@, j + 2).0);
            }
            j += 2;
            continue;
        }
        push_char(&mut arg, v[j]);
        proof {
            assert(before + (seq![v@[j as int]] + bare_arg(v@, j + 1).0) =~= arg@ + bare_arg(v@, j + 1).0);
        }
        j += 1;
    }
    proof {
        assert(arg@ + Seq::<char>::empty() =~= arg@);
    }
    (arg, j)
}

/// The arguments of a request line: split at blanks, a quoted argument
/// holding blanks (`""` in it standing for a quote), a backslash taking
/// the next character with it.
pub fn split_args(line: &str) -> (r: Vec<String>)
    ensures
        strings_view(r@) == args_from(line@, 0),
{
    let v = chars_of(line);
    let mut result: Vec<String> = Vec::new();
    let mut i: usize = 0;
    proof {
        assert(strings_view(result@) + args_from(v@, 0) =~= args_from(v@, 0));
    }
    while i < v.len()
        invariant
            i <= v.len(),
            v@ == line@,
            args_from(v@, 0) == strings_view(result@) + args_from(v@, i as int),
        ensures
            i >= v.len(),
            v@ == line@,
            args_from(v@, 0) == strings_view(result@) + args_from(v@, i as int),
        decreases v.len() - i,
    {
        let ghost i0 = i as int;
        while i < v.len() && (v[i] == ' ' || v[i] == '\t')
            invariant
                i0 <= i <= v.len(),
                skip_blanks(v@, i0) == skip_blanks(v@, i as int),
            decreases v.len() - i,
        {
            i += 1;
        }
        proof {
            assert(skip_blanks(v@, i as int) == i as int);
            lemma_skip_blanks(v@, i0);
        }
        if i >= v.len() {
            proof {
                assert(args_from(v@, i0) =~= Seq::<Seq<char>>::empty());
                assert(args_from(v@, i as int) =~= Seq::<Seq<char>>::empty());
            }
            break;
        }
        let ghost before = strings_view(result@);
        if v[i] == '"' {
            let (arg, next) = read_quoted(&v, i + 1);
            proof {
                lemma_quoted_arg_end(v@, i + 1);
                assert(args_from(v@, i0) == seq![arg@] + args_from(v@, next as int));
            }
            result.push(arg);
            proof {
                assert(strings_view(result@) =~= before.push(arg@));
            }
            i = next;
        } else {
            let (arg, next) = read_bare(&v, i);
            proof {
                lemma_bare_arg_end(v@, i as int);
                assert(args_from(v@, i0) == seq![arg@] + args_from(v@, next as int));
            }
            result.push(arg);
            proof {
                assert(strings_view(result@) =~= before.push(arg@));
            }
            i = next;
        }
    }
    proof {
        assert(args_from(v@, i as int) =~= Seq::<Seq<char>>::empty());
        assert(strings_view(result@) + Seq::<Seq<char>>::empty() =~= strings_view(result@));
    }
    result
}

/// Whether a request name is one of the man macros.
pub open spec fn man_macro_spec(cmd: Seq<char>) -> bool {
    cmd == "TH"@ || cmd == "SH"@ || cmd == "SS"@ || cmd == "PP"@ || cmd == "P"@ || cmd == "LP"@ || cmd == "IP"@
        || cmd == "TP"@ || cmd == "TQ"@ || cmd == "HP"@ || cmd == "PD"@ || cmd == "RS"@ || cmd == "RE"@ || cmd == "B"@
        || cmd == "I"@ || cmd == "BR"@ || cmd == "RB"@ || cmd == "IR"@ || cmd == "RI"@ || cmd == "BI"@ || cmd == "IB"@
        || cmd == "SM"@ || cmd == "SB"@ || cmd == "EX"@ || cmd == "EE"@ || cmd == "UR"@ || cmd == "UE"@ || cmd == "MT"@
        || cmd == "ME"@ || cmd == "SY"@ || cmd == "YS"@ || cmd == "OP"@ || cmd == "DT"@ || cmd == "AT"@ || cmd == "UC"@
}

/// Whether a request name is one of the man macros.
pub fn is_man_macro(cmd: &str) -> (r: bool)
    ensures
        r == man_macro_spec(cmd@),
{
    let names = ["TH", "SH", "SS", "PP", "P", "LP", "IP", "TP", "TQ", "HP", "PD", "RS", "RE", "B", "I", "BR", "RB",
        "IR", "RI", "BI", "IB", "SM", "SB", "EX", "EE", "UR", "UE", "MT", "ME", "SY", "YS", "OP", "DT", "AT", "UC"];
    let v = chars_of(cmd);
    let mut k: usize = 0;
    while k < names.len()
        invariant
            k <= names.len(),
            v@ == cmd@,
            names@ == seq!["TH", "SH", "SS", "PP", "P", "LP", "IP", "TP", "TQ", "HP", "PD", "RS", "RE", "B", "I", "BR", "RB",
                "IR", "RI", "BI", "IB", "SM", "SB", "EX", "EE", "UR", "UE", "MT", "ME", "SY", "YS", "OP", "DT", "AT", "UC"],
            forall|j: int| 0 <= j < k ==> names@[j]@ != cmd@,
        decreases names.len() - k,
    {
        if crate::text::chars_eq_str(&v, names[k]) {
            return true;
        }
        k += 1;
    }
    false
}

/// The name of a manual section after its first character.
pub open spec fn section_name_spec(sec: Seq<char>) -> Seq<char> {
    if sec.len() == 0 {
        ""@
    } else if sec[0] == '1' {
        "General Commands Manual"@
    } else if sec[0] == '2' {
        "System Calls Manual"@
    } else if sec[0] == '3' {
        "Library Functions Manual"@
    } else if sec[0] == '4' {
        "Kernel Interfaces Manual"@
    } else if sec[0] == '5' {
        "File Formats Manual"@
    } else if sec[0] == '6' {
        "Games Manual"@
    } else if sec[0] == '7' {
        "Miscellaneous Information Manual"@
    } else if sec[0] == '8' {
        "System Manager's Manual"@
    } else if sec[0] == '9' {
        "Kernel Developer's Manual"@
    } else {
        ""@
    }
}

/// The name of a manual section.
pub fn default_section_name(sec: &str) -> (r: &'static str)
    ensures
        r@ == section_name_spec(sec@),
{
    let v = chars_of(sec);
    if v.len() == 0 {
        ""
    } else if v[0] == '1' {
        "General Commands Manual"
    } else if v[0] == '2' {
        "System Calls Manual"
    } else if v[0] == '3' {
        "Library Functions Manual"
    } else if v[0] == '4' {
        "Kernel Interfaces Manual"
    } else if v[0] == '5' {
        "File Formats Manual"
    } else if v[0] == '6' {
        "Games Manual"
    } else if v[0] == '7' {
        "Miscellaneous Information Manual"
    } else if v[0] == '8' {
        "System Manager's Manual"
    } else if v[0] == '9' {
        "Kernel Developer's Manual"
    } else {
        ""
    }
}

/// The name of an escape from `i`: `(xx` two characters, `[name]` up to
/// the bracket, else one character; and where it ends.
pub open spec fn escape_name_spec(s: Seq<char>, i: int) -> (Seq<char>, int) {
    if i < 0 || i >= s.len() {
        (Seq::empty(), i)
    } else if s[i] == '(' {
        let e = if i + 3 <= s.len() { i + 3 } else { s.len() as int };
        (s.subrange(i + 1, e), e)
    } else if s[i] == '[' {
        let e = crate::patch::stop_at(s, ']', i + 1);
        (s.subrange(i + 1, e), if e < s.len() { e + 1 } else { e })
    } else {
        (seq![s[i]], i + 1)
    }
}

/// Reads the name of an escape at `*i`, moving `*i` past it.
pub fn read_escape_name(chars: &[char], i: &mut usize) -> (r: String)
    requires
        *old(i) <= chars.len(),
    ensures
        r@ == escape_name_spec(chars@, *old(i) as int).0,
        *final(i) as int == escape_name_spec(chars@, *old(i) as int).1,
{
    if *i >= chars.len() {
        return String::new();
    }
    let start = *i;
    if chars[start] == '(' {
        let e = if chars.len() - start >= 3 { start + 3 } else { chars.len() };
        *i = e;
        string_of(&crate::text::slice_chars(chars, start + 1, e))
    } else if chars[start] == '[' {
        let mut j = start + 1;
        while j < chars.len() && chars[j] != ']'
            invariant
                start + 1 <= j <= chars.len(),
                crate::patch::stop_at(chars@, ']', start + 1) == crate::patch::stop_at(chars@, ']', j as int),
            decreases chars.len() - j,
        {
            j += 1;
        }
        let name = string_of(&crate::text::slice_chars(chars, start + 1, j));
        *i = if j < chars.len() { j + 1 } else { j };
        name
    } else {
        *i = start + 1;
        let mut s = String::new();
        push_char(&mut s, chars[start]);
        s
    }
}

/// The argument of an escape like `\h'...'` from `i`: the text between
/// the delimiter at `i` and its next occurrence; and where it ends.
pub open spec fn delim_arg_spec(s: Seq<char>, i: int) -> Option<(Seq<char>, int)> {
    if i < 0 || i >= s.len() {
        None
    } else {
        let e = crate::patch::stop_at(s, s[i], i + 1);
        Some((s.subrange(i + 1, e), if e < s.len() { e + 1 } else { e }))
    }
}

/// Reads a delimited argument at `*i`, moving `*i` past it.
pub fn read_delim_arg(chars: &[char], i: &mut usize) -> (r: Option<String>)
    requires
        *old(i) <= chars.len(),
    ensures
        match delim_arg_spec(chars@, *old(i) as int) {
            Some((a, e)) => r is Some && r->Some_0@ == a && *final(i) as int == e,
            None => r is None && *final(i) == *old(i),
        },
{
    if *i >= chars.len() {
        return None;
    }
    let start = *i;
    let delim = chars[start];
    let mut j = start + 1;
    while j < chars.len() && chars[j] != delim
        invariant
            start + 1 <= j <= chars.len(),
            start < chars.len(),
            delim == chars@[start as int],
            crate::patch::stop_at(chars@, delim, start + 1) == crate::patch::stop_at(chars@, delim, j as int),
        decreases chars.len() - j,
    {
        j += 1;
    }
    let arg = string_of(&crate::text::slice_chars(chars, start + 1, j));
    *i = if j < chars.len() { j + 1 } else { j };
    Some(arg)
}

/// Where a size escape `\s` read from `i` ends: an optional sign, then
/// `(nn`, `[...]`, `'...'`, or one digit (two when the first is 1 to 3
/// and a digit follows).
pub open spec fn size_escape_end(s: Seq<char>, i: int) -> int {
    if i < 0 || i >= s.len() {
        i
    } else {
        let j = if s[i] == '+' || s[i] == '-' { i + 1 } else { i };
        if j >= s.len() {
            j
        } else if s[j] == '(' {
            j + 3
        } else if s[j] == '[' {
            let e = crate::patch::stop_at(s, ']', j);
            if e < s.len() { e + 1 } else { e }
        } else if s[j] == '\'' {
            let e = crate::patch::stop_at(s, '\'', j + 1);
            if e < s.len() { e + 1 } else { e }
        } else if '0' <= s[j] <= '9' {
            if '1' <= s[j] <= '3' && j + 1 < s.len() && '0' <= s[j + 1] <= '9' { j + 2 } else { j + 1 }
        } else {
            j
        }
    }
}

/// Moves `*i` past a size escape.
pub fn consume_size_escape(chars: &[char], i: &mut usize)
    requires
        *old(i) <= chars.len(),
        chars.len() + 3 <= usize::MAX,
    ensures
        *final(i) as int == size_escape_end(chars@, *old(i) as int),
{
    if *i >= chars.len() {
        return;
    }
    let mut j = *i;
    if chars[j] == '+' || chars[j] == '-' {
        j += 1;
    }
    if j >= chars.len() {
        *i = j;
        return;
    }
    let c = chars[j];
    if c == '(' {
        *i = j + 3;
    } else if c == '[' {
        let mut k = j;
        while k < chars.len() && chars[k] != ']'
            invariant
                j <= k <= chars.len(),
                crate::patch::stop_at(chars@, ']', j as int) == crate::patch::stop_at(chars@, ']', k as int),
            decreases chars.len() - k,
        {
            k += 1;
        }
        *i = if k < chars.len() { k + 1 } else { k };
    } else if c == '\'' {
        let mut k = j + 1;
        while k < chars.len() && chars[k] != '\''
            invariant
                j + 1 <= k <= chars.len(),
                crate::patch::stop_at(chars@, '\'', j + 1) == crate::patch::stop_at(chars@, '\'', k as int),
            decreases chars.len() - k,
        {
            k += 1;
        }
        *i = if k < chars.len() { k + 1 } else { k };
    } else if '0' <= c && c <= '9' {
        if '1' <= c && c <= '3' && j + 1 < chars.len() && '0' <= chars[j + 1] && chars[j + 1] <= '9' {
            *i = j + 2;
        } else {
            *i = j + 1;
        }
    } else {
        *i = j;
    }
}

/// `n` spaces.
pub open spec fn spaces(n: nat) -> Seq<char> {
    Seq::new(n, |k: int| ' ')
}

/// The header or footer line of a man page: `left`, `center` and `right`
/// in `width` columns, the center starting at half the free room (rounded
/// up), with at least one space between the parts.
pub open spec fn three_part_spec(left: Seq<char>, center: Seq<char>, right: Seq<char>, width: int) -> Seq<char> {
    let lw = width_from(left, 0, false) as int;
    let cw = width_from(center, 0, false) as int;
    let rw = width_from(right, 0, false) as int;
    let center_start = (crate::patch::apply::sat_sub(width, cw) + 1) / 2;
    let pad1 = if crate::patch::apply::sat_sub(center_start, lw) > 1 { crate::patch::apply::sat_sub(center_start, lw) } else { 1 };
    let cur = lw + pad1 + cw;
    let pad2 = if crate::patch::apply::sat_sub(width, cur + rw) > 1 { crate::patch::apply::sat_sub(width, cur + rw) } else { 1 };
    left + spaces(pad1 as nat) + center + spaces(pad2 as nat) + right
}

fn push_spaces(s: &mut String, n: usize)
    ensures
        final(s)@ == old(s)@ + spaces(n as nat),
{
    let ghost start = s@;
    let mut k: usize = 0;
    while k < n
        invariant
            k <= n,
            s@ == start + spaces(k as nat),
        decreases n - k,
    {
        push_char(s, ' ');
        proof {
            assert(start + spaces((k + 1) as nat) =~= (start + spaces(k as nat)).push(' '));
        }
        k += 1;
    }
}

/// The header or footer line of a man page.
pub fn three_part(left: &str, center: &str, right: &str, width: usize) -> (r: String)
    requires
        2 * left@.len() + 2 * center@.len() + 2 * right@.len() + width + 4 <= usize::MAX,
    ensures
        r@ == three_part_spec(left@, center@, right@, width as int),
{
    proof {
        lemma_width_bound(left@, 0, false);
        lemma_width_bound(center@, 0, false);
        lemma_width_bound(right@, 0, false);
    }
    let lw = visible_width(left);
    let cw = visible_width(center);
    let rw = visible_width(right);
    let mut line = string_of(&chars_of(left));
    let free = if width >= cw { width - cw } else { 0 };
    let center_start = (free + 1) / 2;
    let gap1 = if center_start >= lw { center_start - lw } else { 0 };
    let pad1 = if gap1 > 1 { gap1 } else { 1 };
    push_spaces(&mut line, pad1);
    line.append(center);
    let cur = lw + pad1 + cw;
    let gap2 = if width >= cur + rw { width - (cur + rw) } else { 0 };
    let pad2 = if gap2 > 1 { gap2 } else { 1 };
    push_spaces(&mut line, pad2);
    line.append(right);
    line
}

} // verus!
