//! The special characters of `groff` (`\(xx`, `\[name]`, `\[uXXXX]`) on each
//! output device.
use vstd::prelude::*;
use crate::text::{chars_of, string_of, push_char, chars_eq_str};

verus! {

/// The output devices.
#[derive(Debug, Clone, Copy, PartialEq, Eq, Structural)]
pub enum Device {
    Ascii,
    Latin1,
    Utf8,
    Html,
}

/// The Unicode text of a named special character.
pub open spec fn unicode_of(name: Seq<char>) -> Option<Seq<char>> {
    if name == "em"@ {
        Some("\u{2014}"@)
    } else if name == "en"@ {
        Some("\u{2013}"@)
    } else if name == "hy"@ {
        Some("-"@)
    } else if name == "bu"@ {
        Some("\u{2022}"@)
    } else if name == "ci"@ {
        Some("\u{25CB}"@)
    } else if name == "sq"@ {
        Some("\u{25A1}"@)
    } else if name == "lq"@ {
        Some("\u{201C}"@)
    } else if name == "rq"@ {
        Some("\u{201D}"@)
    } else if name == "oq"@ {
        Some("\u{2018}"@)
    } else if name == "cq"@ {
        Some("\u{2019}"@)
    } else if name == "aq"@ {
        Some("'"@)
    } else if name == "dq"@ {
        Some("\""@)
    } else if name == "Fo"@ {
        Some("\u{00AB}"@)
    } else if name == "Fc"@ {
        Some("\u{00BB}"@)
    } else if name == "fo"@ {
        Some("\u{2039}"@)
    } else if name == "fc"@ {
        Some("\u{203A}"@)
    } else if name == "co"@ {
        Some("\u{00A9}"@)
    } else if name == "rg"@ {
        Some("\u{00AE}"@)
    } else if name == "tm"@ {
        Some("\u{2122}"@)
    } else if name == "rs"@ {
        Some("\\"@)
    } else if name == "ti"@ {
        Some("~"@)
    } else if name == "ha"@ {
        Some("^"@)
    } else if name == "ga"@ {
        Some("`"@)
    } else if name == "at"@ {
        Some("@"@)
    } else if name == "sh"@ {
        Some("#"@)
    } else if name == "Do"@ {
        Some("$"@)
    } else if name == "sl"@ {
        Some("/"@)
    } else if name == "lB"@ {
        Some("["@)
    } else if name == "rB"@ {
        Some("]"@)
    } else if name == "lC"@ {
        Some("{"@)
    } else if name == "rC"@ {
        Some("}"@)
    } else if name == "pl"@ {
        Some("+"@)
    } else if name == "mi"@ {
        Some("\u{2212}"@)
    } else if name == "mu"@ {
        Some("\u{00D7}"@)
    } else if name == "di"@ {
        Some("\u{00F7}"@)
    } else if name == "eq"@ {
        Some("="@)
    } else if name == ">="@ {
        Some("\u{2265}"@)
    } else if name == "ge"@ {
        Some("\u{2265}"@)
    } else if name == "<="@ {
        Some("\u{2264}"@)
    } else if name == "le"@ {
        Some("\u{2264}"@)
    } else if name == "!="@ {
        Some("\u{2260}"@)
    } else if name == "=="@ {
        Some("\u{2261}"@)
    } else if name == "+-"@ {
        Some("\u{00B1}"@)
    } else if name == "if"@ {
        Some("\u{221E}"@)
    } else if name == "de"@ {
        Some("\u{00B0}"@)
    } else if name == "mc"@ {
        Some("\u{00B5}"@)
    } else if name == "12"@ {
        Some("\u{00BD}"@)
    } else if name == "14"@ {
        Some("\u{00BC}"@)
    } else if name == "34"@ {
        Some("\u{00BE}"@)
    } else if name == "la"@ {
        Some("\u{27E8}"@)
    } else if name == "ra"@ {
        Some("\u{27E9}"@)
    } else if name == "<-"@ {
        Some("\u{2190}"@)
    } else if name == "->"@ {
        Some("\u{2192}"@)
    } else if name == "ua"@ {
        Some("\u{2191}"@)
    } else if name == "da"@ {
        Some("\u{2193}"@)
    } else if name == "<>"@ {
        Some("\u{2194}"@)
    } else if name == "lA"@ {
        Some("\u{21D0}"@)
    } else if name == "rA"@ {
        Some("\u{21D2}"@)
    } else if name == "uA"@ {
        Some("\u{21D1}"@)
    } else if name == "dA"@ {
        Some("\u{21D3}"@)
    } else if name == "hA"@ {
        Some("\u{21D4}"@)
    } else if name == "sc"@ {
        Some("\u{00A7}"@)
    } else if name == "ps"@ {
        Some("\u{00B6}"@)
    } else if name == "dg"@ {
        Some("\u{2020}"@)
    } else if name == "dd"@ {
        Some("\u{2021}"@)
    } else if name == "OK"@ {
        Some("\u{2713}"@)
    } else if name == "ss"@ {
        Some("\u{00DF}"@)
    } else if name == "aa"@ {
        Some("\u{00B4}"@)
    } else if name == "'"@ {
        Some("\u{00B4}"@)
    } else if name == "`"@ {
        Some("`"@)
    } else if name == "cent"@ {
        Some("\u{00A2}"@)
    } else if name == "ct"@ {
        Some("\u{00A2}"@)
    } else if name == "Po"@ {
        Some("\u{00A3}"@)
    } else if name == "Ye"@ {
        Some("\u{00A5}"@)
    } else if name == "Eu"@ {
        Some("\u{20AC}"@)
    } else if name == "no"@ {
        Some("\u{00AC}"@)
    } else if name == "tno"@ {
        Some("\u{00AC}"@)
    } else if name == "%0"@ {
        Some("\u{2030}"@)
    } else if name == "fm"@ {
        Some("\u{2032}"@)
    } else if name == "sd"@ {
        Some("\u{2033}"@)
    } else if name == "lh"@ {
        Some("\u{261C}"@)
    } else if name == "rh"@ {
        Some("\u{261E}"@)
    } else if name == "SP"@ {
        Some(" "@)
    } else {
        None
    }
}

/// The ASCII stand-in of a special character, where it has one.
pub open spec fn ascii_of(name: Seq<char>) -> Option<Seq<char>> {
    if name == "em"@ {
        Some("--"@)
    } else if name == "en"@ {
        Some("-"@)
    } else if name == "bu"@ {
        Some("o"@)
    } else if name == "ci"@ {
        Some("O"@)
    } else if name == "sq"@ {
        Some("[]"@)
    } else if name == "lq"@ {
        Some("\""@)
    } else if name == "rq"@ {
        Some("\""@)
    } else if name == "oq"@ {
        Some("`"@)
    } else if name == "cq"@ {
        Some("'"@)
    } else if name == "co"@ {
        Some("(C)"@)
    } else if name == "rg"@ {
        Some("(R)"@)
    } else if name == "tm"@ {
        Some("(tm)"@)
    } else if name == "mi"@ {
        Some("-"@)
    } else if name == "mu"@ {
        Some("x"@)
    } else if name == "di"@ {
        Some("/"@)
    } else if name == ">="@ {
        Some(">="@)
    } else if name == "ge"@ {
        Some(">="@)
    } else if name == "<="@ {
        Some("<="@)
    } else if name == "le"@ {
        Some("<="@)
    } else if name == "!="@ {
        Some("!="@)
    } else if name == "=="@ {
        Some("=="@)
    } else if name == "+-"@ {
        Some("+-"@)
    } else if name == "if"@ {
        Some("inf"@)
    } else if name == "de"@ {
        Some("deg"@)
    } else if name == "mc"@ {
        Some("u"@)
    } else if name == "12"@ {
        Some("1/2"@)
    } else if name == "14"@ {
        Some("1/4"@)
    } else if name == "34"@ {
        Some("3/4"@)
    } else if name == "la"@ {
        Some("<"@)
    } else if name == "ra"@ {
        Some(">"@)
    } else if name == "<-"@ {
        Some("<-"@)
    } else if name == "->"@ {
        Some("->"@)
    } else if name == "ua"@ {
        Some("^"@)
    } else if name == "da"@ {
        Some("v"@)
    } else if name == "<>"@ {
        Some("<->"@)
    } else if name == "lA"@ {
        Some("<="@)
    } else if name == "rA"@ {
        Some("=>"@)
    } else if name == "uA"@ {
        Some("^"@)
    } else if name == "dA"@ {
        Some("v"@)
    } else if name == "hA"@ {
        Some("<=>"@)
    } else if name == "dg"@ {
        Some("+"@)
    } else if name == "dd"@ {
        Some("++"@)
    } else if name == "OK"@ {
        Some("OK"@)
    } else if name == "ss"@ {
        Some("ss"@)
    } else if name == "aa"@ {
        Some("'"@)
    } else if name == "'"@ {
        Some("'"@)
    } else if name == "fm"@ {
        Some("'"@)
    } else if name == "sd"@ {
        Some("\""@)
    } else if name == "cent"@ {
        Some("c"@)
    } else if name == "ct"@ {
        Some("c"@)
    } else if name == "Po"@ {
        Some("GBP"@)
    } else if name == "Ye"@ {
        Some("JPY"@)
    } else if name == "Eu"@ {
        Some("EUR"@)
    } else if name == "no"@ {
        Some("not"@)
    } else if name == "tno"@ {
        Some("not"@)
    } else if name == "sc"@ {
        Some("S:"@)
    } else if name == "ps"@ {
        Some("P:"@)
    } else if name == "%0"@ {
        Some("0/00"@)
    } else if name == "lh"@ {
        Some("=>"@)
    } else if name == "rh"@ {
        Some("=>"@)
    } else {
        None
    }
}

/// The Unicode text of a named special character.
fn unicode_name(v: &[char]) -> (r: Option<&'static str>)
    ensures
        match unicode_of(v@) {
            Some(u) => r is Some && r->Some_0@ == u,
            None => r is None,
        },
{
    if chars_eq_str(v, "em") {
        Some("\u{2014}")
    } else if chars_eq_str(v, "en") {
        Some("\u{2013}")
    } else if chars_eq_str(v, "hy") {
        Some("-")
    } else if chars_eq_str(v, "bu") {
        Some("\u{2022}")
    } else if chars_eq_str(v, "ci") {
        Some("\u{25CB}")
    } else if chars_eq_str(v, "sq") {
        Some("\u{25A1}")
    } else if chars_eq_str(v, "lq") {
        Some("\u{201C}")
    } else if chars_eq_str(v, "rq") {
        Some("\u{201D}")
    } else if chars_eq_str(v, "oq") {
        Some("\u{2018}")
    } else if chars_eq_str(v, "cq") {
        Some("\u{2019}")
    } else if chars_eq_str(v, "aq") {
        Some("'")
    } else if chars_eq_str(v, "dq") {
        Some("\"")
    } else if chars_eq_str(v, "Fo") {
        Some("\u{00AB}")
    } else if chars_eq_str(v, "Fc") {
        Some("\u{00BB}")
    } else if chars_eq_str(v, "fo") {
        Some("\u{2039}")
    } else if chars_eq_str(v, "fc") {
        Some("\u{203A}")
    } else if chars_eq_str(v, "co") {
        Some("\u{00A9}")
    } else if chars_eq_str(v, "rg") {
        Some("\u{00AE}")
    } else if chars_eq_str(v, "tm") {
        Some("\u{2122}")
    } else if chars_eq_str(v, "rs") {
        Some("\\")
    } else if chars_eq_str(v, "ti") {
        Some("~")
    } else if chars_eq_str(v, "ha") {
        Some("^")
    } else if chars_eq_str(v, "ga") {
        Some("`")
    } else if chars_eq_str(v, "at") {
        Some("@")
    } else if chars_eq_str(v, "sh") {
        Some("#")
    } else if chars_eq_str(v, "Do") {
        Some("$")
    } else if chars_eq_str(v, "sl") {
        Some("/")
    } else if chars_eq_str(v, "lB") {
        Some("[")
    } else if chars_eq_str(v, "rB") {
        Some("]")
    } else if chars_eq_str(v, "lC") {
        Some("{")
    } else if chars_eq_str(v, "rC") {
        Some("}")
    } else if chars_eq_str(v, "pl") {
        Some("+")
    } else if chars_eq_str(v, "mi") {
        Some("\u{2212}")
    } else if chars_eq_str(v, "mu") {
        Some("\u{00D7}")
    } else if chars_eq_str(v, "di") {
        Some("\u{00F7}")
    } else if chars_eq_str(v, "eq") {
        Some("=")
    } else if chars_eq_str(v, ">=") {
        Some("\u{2265}")
    } else if chars_eq_str(v, "ge") {
        Some("\u{2265}")
    } else if chars_eq_str(v, "<=") {
        Some("\u{2264}")
    } else if chars_eq_str(v, "le") {
        Some("\u{2264}")
    } else if chars_eq_str(v, "!=") {
        Some("\u{2260}")
    } else if chars_eq_str(v, "==") {
        Some("\u{2261}")
    } else if chars_eq_str(v, "+-") {
        Some("\u{00B1}")
    } else if chars_eq_str(v, "if") {
        Some("\u{221E}")
    } else if chars_eq_str(v, "de") {
        Some("\u{00B0}")
    } else if chars_eq_str(v, "mc") {
        Some("\u{00B5}")
    } else if chars_eq_str(v, "12") {
        Some("\u{00BD}")
    } else if chars_eq_str(v, "14") {
        Some("\u{00BC}")
    } else if chars_eq_str(v, "34") {
        Some("\u{00BE}")
    } else if chars_eq_str(v, "la") {
        Some("\u{27E8}")
    } else if chars_eq_str(v, "ra") {
        Some("\u{27E9}")
    } else if chars_eq_str(v, "<-") {
        Some("\u{2190}")
    } else if chars_eq_str(v, "->") {
        Some("\u{2192}")
    } else if chars_eq_str(v, "ua") {
        Some("\u{2191}")
    } else if chars_eq_str(v, "da") {
        Some("\u{2193}")
    } else if chars_eq_str(v, "<>") {
        Some("\u{2194}")
    } else if chars_eq_str(v, "lA") {
        Some("\u{21D0}")
    } else if chars_eq_str(v, "rA") {
        Some("\u{21D2}")
    } else if chars_eq_str(v, "uA") {
        Some("\u{21D1}")
    } else if chars_eq_str(v, "dA") {
        Some("\u{21D3}")
    } else if chars_eq_str(v, "hA") {
        Some("\u{21D4}")
    } else if chars_eq_str(v, "sc") {
        Some("\u{00A7}")
    } else if chars_eq_str(v, "ps") {
        Some("\u{00B6}")
    } else if chars_eq_str(v, "dg") {
        Some("\u{2020}")
    } else if chars_eq_str(v, "dd") {
        Some("\u{2021}")
    } else if chars_eq_str(v, "OK") {
        Some("\u{2713}")
    } else if chars_eq_str(v, "ss") {
        Some("\u{00DF}")
    } else if chars_eq_str(v, "aa") {
        Some("\u{00B4}")
    } else if chars_eq_str(v, "'") {
        Some("\u{00B4}")
    } else if chars_eq_str(v, "`") {
        Some("`")
    } else if chars_eq_str(v, "cent") {
        Some("\u{00A2}")
    } else if chars_eq_str(v, "ct") {
        Some("\u{00A2}")
    } else if chars_eq_str(v, "Po") {
        Some("\u{00A3}")
    } else if chars_eq_str(v, "Ye") {
        Some("\u{00A5}")
    } else if chars_eq_str(v, "Eu") {
        Some("\u{20AC}")
    } else if chars_eq_str(v, "no") {
        Some("\u{00AC}")
    } else if chars_eq_str(v, "tno") {
        Some("\u{00AC}")
    } else if chars_eq_str(v, "%0") {
        Some("\u{2030}")
    } else if chars_eq_str(v, "fm") {
        Some("\u{2032}")
    } else if chars_eq_str(v, "sd") {
        Some("\u{2033}")
    } else if chars_eq_str(v, "lh") {
        Some("\u{261C}")
    } else if chars_eq_str(v, "rh") {
        Some("\u{261E}")
    } else if chars_eq_str(v, "SP") {
        Some(" ")
    } else {
        None
    }
}

/// The ASCII stand-in of a special character.
fn ascii_name(v: &[char]) -> (r: Option<&'static str>)
    ensures
        match ascii_of(v@) {
            Some(u) => r is Some && r->Some_0@ == u,
            None => r is None,
        },
{
    if chars_eq_str(v, "em") {
        Some("--")
    } else if chars_eq_str(v, "en") {
        Some("-")
    } else if chars_eq_str(v, "bu") {
        Some("o")
    } else if chars_eq_str(v, "ci") {
        Some("O")
    } else if chars_eq_str(v, "sq") {
        Some("[]")
    } else if chars_eq_str(v, "lq") {
        Some("\"")
    } else if chars_eq_str(v, "rq") {
        Some("\"")
    } else if chars_eq_str(v, "oq") {
        Some("`")
    } else if chars_eq_str(v, "cq") {
        Some("'")
    } else if chars_eq_str(v, "co") {
        Some("(C)")
    } else if chars_eq_str(v, "rg") {
        Some("(R)")
    } else if chars_eq_str(v, "tm") {
        Some("(tm)")
    } else if chars_eq_str(v, "mi") {
        Some("-")
    } else if chars_eq_str(v, "mu") {
        Some("x")
    } else if chars_eq_str(v, "di") {
        Some("/")
    } else if chars_eq_str(v, ">=") {
        Some(">=")
    } else if chars_eq_str(v, "ge") {
        Some(">=")
    } else if chars_eq_str(v, "<=") {
        Some("<=")
    } else if chars_eq_str(v, "le") {
        Some("<=")
    } else if chars_eq_str(v, "!=") {
        Some("!=")
    } else if chars_eq_str(v, "==") {
        Some("==")
    } else if chars_eq_str(v, "+-") {
        Some("+-")
    } else if chars_eq_str(v, "if") {
        Some("inf")
    } else if chars_eq_str(v, "de") {
        Some("deg")
    } else if chars_eq_str(v, "mc") {
        Some("u")
    } else if chars_eq_str(v, "12") {
        Some("1/2")
    } else if chars_eq_str(v, "14") {
        Some("1/4")
    } else if chars_eq_str(v, "34") {
        Some("3/4")
    } else if chars_eq_str(v, "la") {
        Some("<")
    } else if chars_eq_str(v, "ra") {
        Some(">")
    } else if chars_eq_str(v, "<-") {
        Some("<-")
    } else if chars_eq_str(v, "->") {
        Some("->")
    } else if chars_eq_str(v, "ua") {
        Some("^")
    } else if chars_eq_str(v, "da") {
        Some("v")
    } else if chars_eq_str(v, "<>") {
        Some("<->")
    } else if chars_eq_str(v, "lA") {
        Some("<=")
    } else if chars_eq_str(v, "rA") {
        Some("=>")
    } else if chars_eq_str(v, "uA") {
        Some("^")
    } else if chars_eq_str(v, "dA") {
        Some("v")
    } else if chars_eq_str(v, "hA") {
        Some("<=>")
    } else if chars_eq_str(v, "dg") {
        Some("+")
    } else if chars_eq_str(v, "dd") {
        Some("++")
    } else if chars_eq_str(v, "OK") {
        Some("OK")
    } else if chars_eq_str(v, "ss") {
        Some("ss")
    } else if chars_eq_str(v, "aa") {
        Some("'")
    } else if chars_eq_str(v, "'") {
        Some("'")
    } else if chars_eq_str(v, "fm") {
        Some("'")
    } else if chars_eq_str(v, "sd") {
        Some("\"")
    } else if chars_eq_str(v, "cent") {
        Some("c")
    } else if chars_eq_str(v, "ct") {
        Some("c")
    } else if chars_eq_str(v, "Po") {
        Some("GBP")
    } else if chars_eq_str(v, "Ye") {
        Some("JPY")
    } else if chars_eq_str(v, "Eu") {
        Some("EUR")
    } else if chars_eq_str(v, "no") {
        Some("not")
    } else if chars_eq_str(v, "tno") {
        Some("not")
    } else if chars_eq_str(v, "sc") {
        Some("S:")
    } else if chars_eq_str(v, "ps") {
        Some("P:")
    } else if chars_eq_str(v, "%0") {
        Some("0/00")
    } else if chars_eq_str(v, "lh") {
        Some("=>")
    } else if chars_eq_str(v, "rh") {
        Some("=>")
    } else {
        None
    }
}

/// The value of a hexadecimal digit, or -1 for another character.
pub open spec fn hex_digit_value(c: char) -> int {
    if '0' <= c <= '9' {
        c as int - 48
    } else if 'a' <= c <= 'f' {
        c as int - 87
    } else if 'A' <= c <= 'F' {
        c as int - 55
    } else {
        -1
    }
}

/// The number written by hexadecimal digits.
pub open spec fn hex_number(s: Seq<char>) -> int
    decreases s.len(),
{
    if s.len() == 0 {
        0
    } else {
        hex_number(s.drop_last()) * 16 + hex_digit_value(s.last())
    }
}

/// The code point of a name `uXXXX` (at least four hexadecimal digits,
/// within `u32`).
pub open spec fn code_of(name: Seq<char>) -> Option<int> {
    if name.len() >= 5 && name[0] == 'u' && (forall|k: int| 1 <= k < name.len() ==> #[trigger] hex_digit_value(name[k]) >= 0)
        && hex_number(name.skip(1)) <= u32::MAX {
        Some(hex_number(name.skip(1)))
    } else {
        None
    }
}

/// Whether `cp` is a Unicode scalar value.
pub open spec fn is_scalar(cp: int) -> bool {
    0 <= cp <= 0x10FFFF && !(0xD800 <= cp <= 0xDFFF)
}

/// `char::from_u32`: the character with code point `cp`, when `cp` is a
/// Unicode scalar value.
#[verifier::external_body]
pub(crate) fn char_from_code(cp: u32) -> (r: Option<char>)
    ensures
        r is Some <==> is_scalar(cp as int),
        r is Some ==> r->Some_0 == (cp as char),
{
    char::from_u32(cp)
}

fn hex_digit(c: char) -> (r: Option<u64>)
    ensures
        match r {
            Some(d) => hex_digit_value(c) == d as int && d < 16,
            None => hex_digit_value(c) < 0,
        },
{
    if '0' <= c && c <= '9' {
        Some((c as u32 - 48) as u64)
    } else if 'a' <= c && c <= 'f' {
        Some((c as u32 - 87) as u64)
    } else if 'A' <= c && c <= 'F' {
        Some((c as u32 - 55) as u64)
    } else {
        None
    }
}

/// The code point of a name `uXXXX`.
fn hex_code(v: &[char]) -> (r: Option<u32>)
    ensures
        match code_of(v@) {
            Some(cp) => r is Some && r->Some_0 as int == cp,
            None => r is None,
        },
{
    if v.len() < 5 || v[0] != 'u' {
        return None;
    }
    let mut val: u64 = 0;
    let mut over = false;
    let mut k: usize = 1;
    proof {
        assert(v@.subrange(1, 1) =~= Seq::<char>::empty());
    }
    while k < v.len()
        invariant
            1 <= k <= v.len(),
            v@.len() >= 5,
            v@[0] == 'u',
            forall|j: int| 1 <= j < k ==> #[trigger] hex_digit_value(v@[j]) >= 0,
            hex_number(v@.subrange(1, k as int)) >= 0,
            !over ==> val as int == hex_number(v@.subrange(1, k as int)) && val <= u32::MAX,
            over ==> hex_number(v@.subrange(1, k as int)) > u32::MAX,
        decreases v.len() - k,
    {
        let d = match hex_digit(v[k]) {
            Some(d) => d,
            None => return None,
        };
        let ghost prev = hex_number(v@.subrange(1, k as int));
        proof {
            assert(v@.subrange(1, k + 1).drop_last() =~= v@.subrange(1, k as int));
            assert(hex_number(v@.subrange(1, k + 1)) == prev * 16 + d);
            assert(prev * 16 + d >= prev) by (nonlinear_arith)
                requires
                    prev >= 0,
                    d >= 0,
            ;
        }
        if !over {
            val = val * 16 + d;
            if val > 0xFFFF_FFFF {
                over = true;
            }
        }
        k += 1;
    }
    proof {
        assert(v@.subrange(1, v@.len() as int) =~= v@.skip(1));
    }
    if over {
        None
    } else {
        Some(val as u32)
    }
}

/// What a special character prints on a device: `uXXXX` the character
/// with that code point; a known name its Unicode text on UTF-8 and HTML,
/// else its ASCII stand-in where it has one, else the Unicode text; an
/// unknown name nothing.
pub open spec fn special_spec(name: Seq<char>, dev: Device) -> Option<Seq<char>> {
    let hex = match code_of(name) {
        Some(cp) => if is_scalar(cp) { Some(seq![cp as char]) } else { None },
        None => None,
    };
    match hex {
        Some(t) => Some(t),
        None => match unicode_of(name) {
            None => None,
            Some(u) => if dev == Device::Utf8 || dev == Device::Html {
                Some(u)
            } else {
                match ascii_of(name) {
                    Some(a) => Some(a),
                    None => Some(u),
                }
            },
        },
    }
}

/// What a special character prints on a device.
pub fn special_char(name: &str, dev: Device) -> (r: Option<String>)
    ensures
        match special_spec(name@, dev) {
            Some(t) => r is Some && r->Some_0@ == t,
            None => r is None,
        },
{
    let v = chars_of(name);
    match hex_code(&v) {
        Some(cp) => {
            match char_from_code(cp) {
                Some(c) => {
                    let mut s = String::new();
                    push_char(&mut s, c);
                    proof {
                        assert(s@ =~= seq![c]);
                    }
                    return Some(s);
                },
                None => {},
            }
        },
        None => {},
    }
    match unicode_name(&v) {
        None => None,
        Some(u) => {
            if dev == Device::Utf8 || dev == Device::Html {
                Some(String::from_str(u))
            } else {
                match ascii_name(&v) {
                    Some(a) => Some(String::from_str(a)),
                    None => Some(String::from_str(u)),
                }
            }
        },
    }
}

} // verus!
