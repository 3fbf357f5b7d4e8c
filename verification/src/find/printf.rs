//! The formatting of `-printf`: escapes, directives with their flags and
//! widths, and the values of the directives from what is known of a file.
use vstd::prelude::*;
use crate::text::{chars_of, string_of, push_char, push_chars, decimal, decimal_string, digit_char, digit_of,
    file_name_of, path_file_name};

verus! {

/// A moment of a file's life: seconds and nanoseconds since the epoch,
/// and the offset of local time from UTC at that moment, in seconds.
#[derive(Debug, Clone, Copy)]
pub struct Stamp {
    pub secs: i64,
    pub nanos: u32,
    pub offset: i32,
}

/// The formats that `-printf` hands to `chrono`.
pub open spec fn known_format(f: Seq<char>) -> bool {
    f == "%a %b %e %H:%M:%S %Y"@ || f == "%Y-%m-%d+%H:%M:%S"@ || f == "%I:%M:%S %p"@ || f == "%H:%M:%S"@
        || f == "%Z"@ || f == "%a"@ || f == "%A"@ || f == "%b"@ || f == "%B"@ || f == "%c"@ || f == "%m/%d/%y"@
        || f == "%x"@
}

/// The text `chrono` formats for the moment at the offset, or none when
/// the moment or the offset is out of its range; a function of these
/// values alone.
pub uninterp spec fn stamp_text_of(secs: i64, nanos: u32, offset: i32, fmt: Seq<char>) -> Option<Seq<char>>;

/// The calendar fields `chrono` finds for the moment at the offset: year,
/// month, day, hour, minute, second, day of the year, day of the week
/// counted from Sunday, ISO week number; none out of its range.
pub uninterp spec fn stamp_fields_of(secs: i64, nanos: u32, offset: i32) -> Option<(i32, u32, u32, u32, u32, u32, u32, u32, u32)>;

/// `chrono`: `DateTime::from_timestamp`, at `FixedOffset::east_opt`, then
/// `format`.
#[verifier::external_body]
fn stamp_format(stamp: &Stamp, fmt: &str) -> (r: Option<String>)
    requires
        known_format(fmt@),
    ensures
        match r {
            Some(s) => stamp_text_of(stamp.secs, stamp.nanos, stamp.offset, fmt@) == Some(s@),
            None => stamp_text_of(stamp.secs, stamp.nanos, stamp.offset, fmt@) is None,
        },
{
    let offset = chrono::FixedOffset::east_opt(stamp.offset)?;
    let moment = chrono::DateTime::from_timestamp(stamp.secs, stamp.nanos)?;
    Some(moment.with_timezone(&offset).format(fmt).to_string())
}

/// `chrono`: the `Datelike` and `Timelike` fields of the moment at the
/// offset.
#[verifier::external_body]
fn stamp_fields(stamp: &Stamp) -> (r: Option<(i32, u32, u32, u32, u32, u32, u32, u32, u32)>)
    ensures
        r == stamp_fields_of(stamp.secs, stamp.nanos, stamp.offset),
{
    let offset = chrono::FixedOffset::east_opt(stamp.offset)?;
    let t = chrono::DateTime::from_timestamp(stamp.secs, stamp.nanos)?.with_timezone(&offset);
    Some((chrono::Datelike::year(&t), chrono::Datelike::month(&t), chrono::Datelike::day(&t),
        chrono::Timelike::hour(&t), chrono::Timelike::minute(&t), chrono::Timelike::second(&t),
        chrono::Datelike::ordinal(&t), chrono::Datelike::weekday(&t).num_days_from_sunday(),
        chrono::Datelike::iso_week(&t).week()))
}

/// `s` padded on the left with `c` to `w` characters.
pub open spec fn pad_left(s: Seq<char>, w: nat, c: char) -> Seq<char> {
    if s.len() >= w {
        s
    } else {
        Seq::new((w - s.len()) as nat, |k: int| c) + s
    }
}

/// A number as `{:0w}` writes it: the sign, then the digits padded with
/// zeros to fill the width.
pub open spec fn zero_padded(v: int, w: nat) -> Seq<char> {
    if v < 0 {
        seq!['-'] + pad_left(decimal((-v) as nat), if w >= 1 { (w - 1) as nat } else { 0 }, '0')
    } else {
        pad_left(decimal(v as nat), w, '0')
    }
}

/// A number as `to_string` writes it.
pub open spec fn signed_decimal(v: int) -> Seq<char> {
    zero_padded(v, 0)
}

/// The text of a moment in a format, `?` when `chrono` cannot place it.
pub open spec fn stamp_text(s: Stamp, fmt: Seq<char>) -> Seq<char> {
    match stamp_text_of(s.secs, s.nanos, s.offset, fmt) {
        Some(t) => t,
        None => "?"@,
    }
}

/// A field of a moment, written by `f`; `?` when `chrono` cannot place it.
pub open spec fn hour12(h: u32) -> int {
    if h % 12 == 0 { 1 } else { (h % 12) as int }
}

/// What a time directive that reads a calendar field prints.
pub open spec fn field_text(k: char, f: (i32, u32, u32, u32, u32, u32, u32, u32, u32)) -> Seq<char> {
    let (year, month, day, hour, minute, second, ordinal, weekday, week) = f;
    if k == 'H' {
        zero_padded(hour as int, 2)
    } else if k == 'I' {
        zero_padded(hour12(hour), 2)
    } else if k == 'k' {
        pad_left(decimal(hour as nat), 2, ' ')
    } else if k == 'l' {
        pad_left(decimal(hour12(hour) as nat), 2, ' ')
    } else if k == 'M' {
        zero_padded(minute as int, 2)
    } else if k == 'p' {
        if hour < 12 { "AM"@ } else { "PM"@ }
    } else if k == 'P' {
        if hour < 12 { "am"@ } else { "pm"@ }
    } else if k == 'S' {
        zero_padded(second as int, 2)
    } else if k == 'd' {
        zero_padded(day as int, 2)
    } else if k == 'j' {
        zero_padded(ordinal as int, 3)
    } else if k == 'm' {
        zero_padded(month as int, 2)
    } else if k == 'U' || k == 'W' {
        zero_padded(week as int, 2)
    } else if k == 'w' {
        decimal(weekday as nat)
    } else if k == 'y' {
        zero_padded(year % 100 - if year < 0 && year % 100 != 0 { 100int } else { 0int }, 2)
    } else {
        signed_decimal(year as int)
    }
}

/// What `%Tk` (and the other time directives) prints for the moment and
/// the format character `k`.
pub open spec fn strftime_spec(s: Stamp, k: char) -> Seq<char> {
    if k == '@' {
        if s.secs >= 0 {
            decimal(s.secs as nat) + seq!['.'] + pad_left(decimal(s.nanos as nat), 9, '0')
        } else {
            signed_decimal(s.secs as int)
        }
    } else if k == '+' {
        stamp_text(s, "%Y-%m-%d+%H:%M:%S"@)
    } else if k == 'r' {
        stamp_text(s, "%I:%M:%S %p"@)
    } else if k == 'T' || k == 'X' {
        stamp_text(s, "%H:%M:%S"@)
    } else if k == 'Z' {
        stamp_text(s, "%Z"@)
    } else if k == 'a' {
        stamp_text(s, "%a"@)
    } else if k == 'A' {
        stamp_text(s, "%A"@)
    } else if k == 'b' || k == 'h' {
        stamp_text(s, "%b"@)
    } else if k == 'B' {
        stamp_text(s, "%B"@)
    } else if k == 'c' {
        stamp_text(s, "%c"@)
    } else if k == 'D' {
        stamp_text(s, "%m/%d/%y"@)
    } else if k == 'x' {
        stamp_text(s, "%x"@)
    } else if k == 'H' || k == 'I' || k == 'k' || k == 'l' || k == 'M' || k == 'p' || k == 'P' || k == 'S'
        || k == 'd' || k == 'j' || k == 'm' || k == 'U' || k == 'w' || k == 'W' || k == 'y' || k == 'Y' {
        match stamp_fields_of(s.secs, s.nanos, s.offset) {
            None => "?"@,
            Some(f) => field_text(k, f),
        }
    } else {
        seq!['%', k]
    }
}

/// `n` characters `c`.
fn push_repeat(s: &mut String, c: char, n: usize)
    ensures
        final(s)@ == old(s)@ + Seq::new(n as nat, |k: int| c),
{
    let ghost start = s@;
    let mut k: usize = 0;
    while k < n
        invariant
            k <= n,
            s@ == start + Seq::new(k as nat, |j: int| c),
        decreases n - k,
    {
        push_char(s, c);
        proof {
            assert(start + Seq::new((k + 1) as nat, |j: int| c) =~= (start + Seq::new(k as nat, |j: int| c)).push(c));
        }
        k += 1;
    }
}

/// `s` padded on the left with `c` to `w` characters.
fn pad_left_exec(s: &str, w: usize, c: char) -> (r: String)
    ensures
        r@ == pad_left(s@, w as nat, c),
{
    let v = chars_of(s);
    let mut r = String::new();
    if v.len() < w {
        push_repeat(&mut r, c, w - v.len());
    }
    push_chars(&mut r, &v);
    proof {
        if v.len() >= w {
            assert(r@ =~= s@);
        }
    }
    r
}

/// A number as `{:0w}` writes it.
fn zero_padded_exec(v: i64, w: usize) -> (r: String)
    requires
        v > i64::MIN,
    ensures
        r@ == zero_padded(v as int, w as nat),
{
    if v < 0 {
        let d = decimal_string((-v) as u64);
        let mut r = String::new();
        push_char(&mut r, '-');
        let p = pad_left_exec(d.as_str(), if w >= 1 { w - 1 } else { 0 }, '0');
        r.append(p.as_str());
        r
    } else {
        let d = decimal_string(v as u64);
        pad_left_exec(d.as_str(), w, '0')
    }
}

/// The text of a moment in a format, `?` when `chrono` cannot place it.
fn stamp_text_exec(s: &Stamp, fmt: &str) -> (r: String)
    requires
        known_format(fmt@),
    ensures
        r@ == stamp_text(*s, fmt@),
{
    match stamp_format(s, fmt) {
        Some(t) => t,
        None => String::from_str("?"),
    }
}

/// What a time directive that reads a calendar field prints.
fn field_text_exec(k: char, f: (i32, u32, u32, u32, u32, u32, u32, u32, u32)) -> (r: String)
    ensures
        r@ == field_text(k, f),
{
    let (year, month, day, hour, minute, second, ordinal, weekday, week) = f;
    let h12: u32 = if hour % 12 == 0 { 1 } else { hour % 12 };
    if k == 'H' {
        zero_padded_exec(hour as i64, 2)
    } else if k == 'I' {
        zero_padded_exec(h12 as i64, 2)
    } else if k == 'k' {
        pad_left_exec(decimal_string(hour as u64).as_str(), 2, ' ')
    } else if k == 'l' {
        pad_left_exec(decimal_string(h12 as u64).as_str(), 2, ' ')
    } else if k == 'M' {
        zero_padded_exec(minute as i64, 2)
    } else if k == 'p' {
        if hour < 12 { String::from_str("AM") } else { String::from_str("PM") }
    } else if k == 'P' {
        if hour < 12 { String::from_str("am") } else { String::from_str("pm") }
    } else if k == 'S' {
        zero_padded_exec(second as i64, 2)
    } else if k == 'd' {
        zero_padded_exec(day as i64, 2)
    } else if k == 'j' {
        zero_padded_exec(ordinal as i64, 3)
    } else if k == 'm' {
        zero_padded_exec(month as i64, 2)
    } else if k == 'U' || k == 'W' {
        zero_padded_exec(week as i64, 2)
    } else if k == 'w' {
        decimal_string(weekday as u64)
    } else if k == 'y' {
        let y = year % 100;
        assert(y as int == year % 100 - if year < 0 && year % 100 != 0 { 100int } else { 0int });
        zero_padded_exec(y as i64, 2)
    } else {
        zero_padded_exec(year as i64, 0)
    }
}

/// What a moment prints as `-printf`'s `%a`, `%c` and `%t`.
pub fn format_time_default(s: &Stamp) -> (r: String)
    ensures
        r@ == stamp_text(*s, "%a %b %e %H:%M:%S %Y"@),
{
    stamp_text_exec(s, "%a %b %e %H:%M:%S %Y")
}

/// What the time directives print for a moment and a format character.
pub fn format_time_strftime(s: &Stamp, k: char) -> (r: String)
    ensures
        r@ == strftime_spec(*s, k),
{
    if k == '@' {
        if s.secs >= 0 {
            let mut r = decimal_string(s.secs as u64);
            push_char(&mut r, '.');
            let n = decimal_string(s.nanos as u64);
            let p = pad_left_exec(n.as_str(), 9, '0');
            r.append(p.as_str());
            proof {
                assert(r@ =~= decimal(s.secs as nat) + seq!['.'] + pad_left(decimal(s.nanos as nat), 9, '0'));
            }
            r
        } else if s.secs == i64::MIN {
            let mut r = String::new();
            push_char(&mut r, '-');
            let d = decimal_string(9223372036854775808u64);
            r.append(d.as_str());
            proof {
                assert(r@ =~= seq!['-'] + decimal(9223372036854775808nat));
                assert(zero_padded(s.secs as int, 0) == seq!['-'] + pad_left(decimal(9223372036854775808nat), 0, '0'));
            }
            r
        } else {
            zero_padded_exec(s.secs, 0)
        }
    } else if k == '+' {
        stamp_text_exec(s, "%Y-%m-%d+%H:%M:%S")
    } else if k == 'r' {
        stamp_text_exec(s, "%I:%M:%S %p")
    } else if k == 'T' || k == 'X' {
        stamp_text_exec(s, "%H:%M:%S")
    } else if k == 'Z' {
        stamp_text_exec(s, "%Z")
    } else if k == 'a' {
        stamp_text_exec(s, "%a")
    } else if k == 'A' {
        stamp_text_exec(s, "%A")
    } else if k == 'b' || k == 'h' {
        stamp_text_exec(s, "%b")
    } else if k == 'B' {
        stamp_text_exec(s, "%B")
    } else if k == 'c' {
        stamp_text_exec(s, "%c")
    } else if k == 'D' {
        stamp_text_exec(s, "%m/%d/%y")
    } else if k == 'x' {
        stamp_text_exec(s, "%x")
    } else if k == 'H' || k == 'I' || k == 'k' || k == 'l' || k == 'M' || k == 'p' || k == 'P' || k == 'S'
        || k == 'd' || k == 'j' || k == 'm' || k == 'U' || k == 'w' || k == 'W' || k == 'y' || k == 'Y' {
        match stamp_fields(s) {
            None => String::from_str("?"),
            Some(f) => field_text_exec(k, f),
        }
    } else {
        let mut r = String::new();
        push_char(&mut r, '%');
        push_char(&mut r, k);
        proof {
            assert(r@ =~= seq!['%', k]);
        }
        r
    }
}

/// The parent of a path as `std::path::Path::parent` finds it, read as
/// text; a function of the path's text alone.
pub uninterp spec fn parent_of(path: Seq<char>) -> Option<Seq<char>>;

/// `std::path::Path::parent`, displayed.
#[verifier::external_body]
fn path_parent(path: &str) -> (r: Option<String>)
    ensures
        match r {
            Some(p) => parent_of(path@) == Some(p@),
            None => parent_of(path@) is None,
        },
{
    match std::path::Path::new(path).parent() {
        Some(p) => Some(p.display().to_string()),
        None => None,
    }
}

/// A path relative to a base as `std::path::Path::strip_prefix` finds it,
/// read as text; none when the base is not a prefix of it.
pub uninterp spec fn stripped_of(path: Seq<char>, base: Seq<char>) -> Option<Seq<char>>;

/// `std::path::Path::strip_prefix`, displayed.
#[verifier::external_body]
fn path_strip_prefix(path: &str, base: &str) -> (r: Option<String>)
    ensures
        match r {
            Some(p) => stripped_of(path@, base@) == Some(p@),
            None => stripped_of(path@, base@) is None,
        },
{
    match std::path::Path::new(path).strip_prefix(base) {
        Ok(rel) => Some(rel.display().to_string()),
        Err(_) => None,
    }
}

/// What is known of a file from its metadata.
#[derive(Debug, Clone)]
pub struct FileFacts {
    pub size: u64,
    pub blocks: u64,
    pub mode: u32,
    pub mode_symbolic: String,
    pub uid: u32,
    pub user: Option<String>,
    pub gid: u32,
    pub group: Option<String>,
    /// `blocks * 512 / size` with one decimal, for a file that is not empty.
    pub sparseness: String,
    pub accessed: Option<Stamp>,
    pub changed: Stamp,
    pub modified: Option<Stamp>,
    pub born: Option<Stamp>,
}

/// What the directives of `-printf` read of a file.
#[derive(Debug, Clone)]
pub struct PrintfInfo {
    pub path: String,
    pub start_path: String,
    pub depth: usize,
    pub facts: Option<FileFacts>,
    /// Device, inode and link count.
    pub ids: Option<(u64, u64, u64)>,
    pub link_target: String,
    pub fstype: String,
    /// The type letter of the file itself (`%y`).
    pub type_char: Option<char>,
    /// The type letter of what it points to (`%Y`).
    pub target_type_char: Option<char>,
}

/// The octal digits of `n`.
pub open spec fn octal(n: nat) -> Seq<char>
    decreases n,
{
    if n < 8 {
        seq![digit_char(n)]
    } else {
        octal(n / 8).push(digit_char(n % 8))
    }
}

/// `n` in octal, as `{:o}` writes it.
pub fn octal_string(n: u64) -> (r: String)
    ensures
        r@ == octal(n as nat),
    decreases n,
{
    if n < 8 {
        let mut s = String::new();
        push_char(&mut s, digit_of(n));
        proof {
            assert(s@ =~= seq![digit_char(n as nat)]);
        }
        s
    } else {
        let mut s = octal_string(n / 8);
        push_char(&mut s, digit_of(n % 8));
        s
    }
}

pub open spec fn opt_text(o: Option<String>) -> Option<Seq<char>> {
    match o {
        Some(s) => Some(s@),
        None => None,
    }
}

/// A name, or the number when there is none.
pub open spec fn name_or_number(name: Option<String>, n: u32) -> Seq<char> {
    match name {
        Some(s) => s@,
        None => decimal(n as nat),
    }
}

/// What a directive that needs the metadata prints: its text, or `?`.
pub open spec fn fact_text(dir: char, f: Option<FileFacts>) -> Seq<char> {
    match f {
        None => if dir == 'M' { "??????????"@ } else if dir == 's' || dir == 'b' || dir == 'k' { "0"@ } else { "?"@ },
        Some(m) => if dir == 's' {
            decimal(m.size as nat)
        } else if dir == 'k' {
            decimal((m.blocks / 2 + m.blocks % 2) as nat)
        } else if dir == 'b' {
            decimal(m.blocks as nat)
        } else if dir == 'S' {
            if m.size == 0 { "1.0"@ } else { m.sparseness@ }
        } else if dir == 'm' {
            octal((m.mode % 4096) as nat)
        } else if dir == 'M' {
            m.mode_symbolic@
        } else if dir == 'u' {
            name_or_number(m.user, m.uid)
        } else if dir == 'U' {
            decimal(m.uid as nat)
        } else if dir == 'g' {
            name_or_number(m.group, m.gid)
        } else if dir == 'G' {
            decimal(m.gid as nat)
        } else if dir == 'a' {
            match m.accessed {
                Some(t) => stamp_text(t, "%a %b %e %H:%M:%S %Y"@),
                None => "?"@,
            }
        } else if dir == 'c' {
            stamp_text(m.changed, "%a %b %e %H:%M:%S %Y"@)
        } else {
            match m.modified {
                Some(t) => stamp_text(t, "%a %b %e %H:%M:%S %Y"@),
                None => "?"@,
            }
        },
    }
}

/// The moment that `%Ak`, `%Bk`, `%Ck` or `%Tk` reads.
pub open spec fn time_of(dir: char, f: Option<FileFacts>) -> Option<Stamp> {
    match f {
        None => None,
        Some(m) => if dir == 'A' {
            m.accessed
        } else if dir == 'B' {
            m.born
        } else if dir == 'C' {
            Some(m.changed)
        } else {
            m.modified
        },
    }
}

/// What a directive prints for the file, and whether it reads the next
/// character of the format (the time directives `%Ak` and the like do);
/// `None` for an unknown directive or a time directive at the end.
pub open spec fn directive_value(dir: char, next: Option<char>, info: PrintfInfo) -> (Option<Seq<char>>, bool) {
    if dir == '%' {
        (Some("%"@), false)
    } else if dir == 'p' {
        (Some(info.path@), false)
    } else if dir == 'f' {
        (Some(match file_name_of(info.path@) {
            Some(n) => n,
            None => Seq::empty(),
        }), false)
    } else if dir == 'h' {
        (Some(match parent_of(info.path@) {
            Some(p) => if p.len() > 0 { p } else { "."@ },
            None => "."@,
        }), false)
    } else if dir == 'P' {
        (Some(match stripped_of(info.path@, info.start_path@) {
            Some(r) => r,
            None => info.path@,
        }), false)
    } else if dir == 'H' {
        (Some(info.start_path@), false)
    } else if dir == 'd' {
        (Some(decimal(info.depth as nat)), false)
    } else if dir == 's' || dir == 'k' || dir == 'b' || dir == 'S' || dir == 'm' || dir == 'M' || dir == 'u'
        || dir == 'U' || dir == 'g' || dir == 'G' || dir == 'a' || dir == 'c' || dir == 't' {
        (Some(fact_text(dir, info.facts)), false)
    } else if dir == 'l' {
        (Some(info.link_target@), false)
    } else if dir == 'i' || dir == 'n' || dir == 'D' {
        (Some(match info.ids {
            Some((dev, ino, nlink)) => decimal((if dir == 'i' { ino } else if dir == 'n' { nlink } else { dev }) as nat),
            None => "?"@,
        }), false)
    } else if dir == 'F' {
        (Some(info.fstype@), false)
    } else if dir == 'y' || dir == 'Y' {
        (Some(match (if dir == 'y' { info.type_char } else { info.target_type_char }) {
            Some(c) => seq![c],
            None => "?"@,
        }), false)
    } else if dir == 'A' || dir == 'B' || dir == 'C' || dir == 'T' {
        match next {
            None => (None, false),
            Some(k) => (Some(match time_of(dir, info.facts) {
                Some(t) => strftime_spec(t, k),
                None => "?"@,
            }), true),
        }
    } else {
        (None, false)
    }
}

fn name_or_number_exec(name: &Option<String>, n: u32) -> (r: String)
    ensures
        r@ == name_or_number(*name, n),
{
    match name {
        Some(s) => s.clone(),
        None => decimal_string(n as u64),
    }
}

fn default_time(t: &Option<Stamp>) -> (r: String)
    ensures
        r@ == match *t {
            Some(t) => stamp_text(t, "%a %b %e %H:%M:%S %Y"@),
            None => "?"@,
        },
{
    match t {
        Some(t) => format_time_default(t),
        None => String::from_str("?"),
    }
}

/// What a directive that needs the metadata prints.
fn fact_text_exec(dir: char, f: &Option<FileFacts>) -> (r: String)
    ensures
        r@ == fact_text(dir, *f),
{
    match f {
        None => {
            if dir == 'M' {
                String::from_str("??????????")
            } else if dir == 's' || dir == 'b' || dir == 'k' {
                String::from_str("0")
            } else {
                String::from_str("?")
            }
        },
        Some(m) => {
            if dir == 's' {
                decimal_string(m.size)
            } else if dir == 'k' {
                decimal_string(m.blocks / 2 + m.blocks % 2)
            } else if dir == 'b' {
                decimal_string(m.blocks)
            } else if dir == 'S' {
                if m.size == 0 { String::from_str("1.0") } else { m.sparseness.clone() }
            } else if dir == 'm' {
                let mode = m.mode;
                let bits = mode & 0o7777;
                assert(bits == mode % 4096) by (bit_vector)
                    requires
                        bits == mode & 0o7777,
                ;
                octal_string(bits as u64)
            } else if dir == 'M' {
                m.mode_symbolic.clone()
            } else if dir == 'u' {
                name_or_number_exec(&m.user, m.uid)
            } else if dir == 'U' {
                decimal_string(m.uid as u64)
            } else if dir == 'g' {
                name_or_number_exec(&m.group, m.gid)
            } else if dir == 'G' {
                decimal_string(m.gid as u64)
            } else if dir == 'a' {
                default_time(&m.accessed)
            } else if dir == 'c' {
                format_time_default(&m.changed)
            } else {
                default_time(&m.modified)
            }
        },
    }
}

/// What a directive prints for the file, and whether it read the next
/// character of the format.
pub fn printf_directive_value(dir: char, next: Option<char>, info: &PrintfInfo) -> (r: (Option<String>, bool))
    ensures
        opt_text(r.0) == directive_value(dir, next, *info).0,
        r.1 == directive_value(dir, next, *info).1,
{
    if dir == '%' {
        (Some(String::from_str("%")), false)
    } else if dir == 'p' {
        (Some(info.path.clone()), false)
    } else if dir == 'f' {
        (Some(match path_file_name(info.path.as_str()) {
            Some(n) => n,
            None => String::new(),
        }), false)
    } else if dir == 'h' {
        (Some(match path_parent(info.path.as_str()) {
            Some(p) => if chars_of(p.as_str()).len() > 0 { p } else { String::from_str(".") },
            None => String::from_str("."),
        }), false)
    } else if dir == 'P' {
        (Some(match path_strip_prefix(info.path.as_str(), info.start_path.as_str()) {
            Some(r) => r,
            None => info.path.clone(),
        }), false)
    } else if dir == 'H' {
        (Some(info.start_path.clone()), false)
    } else if dir == 'd' {
        (Some(decimal_string(info.depth as u64)), false)
    } else if dir == 's' || dir == 'k' || dir == 'b' || dir == 'S' || dir == 'm' || dir == 'M' || dir == 'u'
        || dir == 'U' || dir == 'g' || dir == 'G' || dir == 'a' || dir == 'c' || dir == 't' {
        (Some(fact_text_exec(dir, &info.facts)), false)
    } else if dir == 'l' {
        (Some(info.link_target.clone()), false)
    } else if dir == 'i' || dir == 'n' || dir == 'D' {
        (Some(match info.ids {
            Some((dev, ino, nlink)) => decimal_string(if dir == 'i' { ino } else if dir == 'n' { nlink } else { dev }),
            None => String::from_str("?"),
        }), false)
    } else if dir == 'F' {
        (Some(info.fstype.clone()), false)
    } else if dir == 'y' || dir == 'Y' {
        let c = if dir == 'y' { info.type_char } else { info.target_type_char };
        (Some(match c {
            Some(c) => {
                let mut s = String::new();
                push_char(&mut s, c);
                proof {
                    assert(s@ =~= seq![c]);
                }
                s
            },
            None => String::from_str("?"),
        }), false)
    } else if dir == 'A' || dir == 'B' || dir == 'C' || dir == 'T' {
        match next {
            None => (None, false),
            Some(k) => {
                let t = match &info.facts {
                    None => None,
                    Some(m) => if dir == 'A' {
                        m.accessed
                    } else if dir == 'B' {
                        m.born
                    } else if dir == 'C' {
                        Some(m.changed)
                    } else {
                        m.modified
                    },
                };
                assert(t == time_of(dir, info.facts));
                (Some(match t {
                    Some(t) => format_time_strftime(&t, k),
                    None => String::from_str("?"),
                }), true)
            },
        }
    } else {
        (None, false)
    }
}

/// The character an escape `\c` stands for, for the one-letter escapes.
pub open spec fn simple_escape(c: char) -> Option<char> {
    if c == 'a' {
        Some('\x07')
    } else if c == 'b' {
        Some('\x08')
    } else if c == 'f' {
        Some('\x0C')
    } else if c == 'n' {
        Some('\n')
    } else if c == 'r' {
        Some('\r')
    } else if c == 't' {
        Some('\t')
    } else if c == 'v' {
        Some('\x0B')
    } else if c == '\\' {
        Some('\\')
    } else {
        None
    }
}

pub open spec fn is_octal(c: char) -> bool {
    '0' <= c <= '7'
}

/// An octal escape whose first digit is at `i`: its value (up to three
/// digits) and where it ends.
pub open spec fn octal_escape(f: Seq<char>, i: int) -> (int, int) {
    let d0 = f[i] as int - 48;
    if i + 1 < f.len() && is_octal(f[i + 1]) {
        let d1 = f[i + 1] as int - 48;
        if i + 2 < f.len() && is_octal(f[i + 2]) {
            (d0 * 64 + d1 * 8 + (f[i + 2] as int - 48), i + 3)
        } else {
            (d0 * 8 + d1, i + 2)
        }
    } else {
        (d0, i + 1)
    }
}

pub open spec fn is_flag(c: char) -> bool {
    c == '-' || c == '0' || c == '+' || c == ' ' || c == '#'
}

/// The flags of a directive from `i`: where they end, and whether `-`
/// (align left) and `0` (pad with zeros) are among them.
pub open spec fn flag_run(f: Seq<char>, i: int) -> (int, bool, bool)
    decreases f.len() - i,
{
    if 0 <= i < f.len() && is_flag(f[i]) {
        let (e, l, z) = flag_run(f, i + 1);
        (e, l || f[i] == '-', z || f[i] == '0')
    } else {
        (i, false, false)
    }
}

/// Where the run of decimal digits from `i` ends.
pub open spec fn digits_end(f: Seq<char>, i: int) -> int
    decreases f.len() - i,
{
    if 0 <= i < f.len() && '0' <= f[i] <= '9' {
        digits_end(f, i + 1)
    } else {
        i
    }
}

pub proof fn lemma_runs_end(f: Seq<char>, i: int)
    requires
        0 <= i,
    ensures
        i <= flag_run(f, i).0,
        i <= digits_end(f, i),
        i <= f.len() ==> flag_run(f, i).0 <= f.len() && digits_end(f, i) <= f.len(),
    decreases f.len() - i,
{
    if 0 <= i < f.len() {
        lemma_runs_end(f, i + 1);
    }
}

/// A value padded to the width: on the right with `-`, else on the left
/// with zeros (flag `0`) or spaces.
pub open spec fn padded(v: Seq<char>, width: nat, left: bool, zero: bool) -> Seq<char> {
    if width > v.len() {
        if left {
            v + Seq::new((width - v.len()) as nat, |k: int| ' ')
        } else {
            Seq::new((width - v.len()) as nat, |k: int| if zero { '0' } else { ' ' }) + v
        }
    } else {
        v
    }
}

pub open spec fn prepend(p: Seq<char>, o: Option<Seq<char>>) -> Option<Seq<char>> {
    match o {
        Some(r) => Some(p + r),
        None => None,
    }
}

/// One step of `-printf` at `i`: the text it prints and where it goes on,
/// or the text it ends with (`\c`, or a `%` or `\` at the very end), or
/// a width that does not fit in a `usize`, on which `find` stops.
pub enum PrintfStep {
    Emit(Seq<char>, int),
    Stop(Seq<char>),
    Abort,
}

/// A step at a backslash.
pub open spec fn escape_step(f: Seq<char>, i: int) -> PrintfStep {
    if i + 1 >= f.len() {
        PrintfStep::Stop(seq!['\\'])
    } else {
        let c = f[i + 1];
        if c == 'c' {
            PrintfStep::Stop(Seq::empty())
        } else {
            match simple_escape(c) {
                Some(e) => PrintfStep::Emit(seq![e], i + 2),
                None => if is_octal(c) {
                    let (v, e) = octal_escape(f, i + 1);
                    PrintfStep::Emit(seq![v as char], e)
                } else {
                    PrintfStep::Emit(seq!['\\', c], i + 2)
                },
            }
        }
    }
}

/// A step at a `%`.
pub open spec fn percent_step(f: Seq<char>, i: int, info: PrintfInfo) -> PrintfStep {
    let (j, left, zero) = flag_run(f, i + 1);
    let k = digits_end(f, j);
    let width = crate::text::digits_value(f.subrange(j, k));
    if width > usize::MAX {
        PrintfStep::Abort
    } else {
        let m = if k < f.len() && f[k] == '.' { digits_end(f, k + 1) } else { k };
        if m >= f.len() {
            PrintfStep::Stop(seq!['%'])
        } else {
            let dir = f[m];
            let next = if m + 1 < f.len() { Some(f[m + 1]) } else { None };
            let (val, used) = directive_value(dir, next, info);
            let piece = match val {
                Some(v) => padded(v, width, left, zero),
                None => seq!['%', dir],
            };
            PrintfStep::Emit(piece, m + 1 + if used { 1int } else { 0int })
        }
    }
}

pub open spec fn printf_step(f: Seq<char>, i: int, info: PrintfInfo) -> PrintfStep {
    if f[i] == '\\' {
        escape_step(f, i)
    } else if f[i] == '%' {
        percent_step(f, i, info)
    } else {
        PrintfStep::Emit(seq![f[i]], i + 1)
    }
}

/// What `-printf` prints for the format from `i` on; `None` when `find`
/// stops on it.
pub open spec fn printf_from(f: Seq<char>, i: int, info: PrintfInfo) -> Option<Seq<char>>
    decreases f.len() - i,
{
    if i < 0 || i >= f.len() {
        Some(Seq::empty())
    } else {
        match printf_step(f, i, info) {
            PrintfStep::Emit(p, n) => if n > i { prepend(p, printf_from(f, n, info)) } else { None },
            PrintfStep::Stop(p) => Some(p),
            PrintfStep::Abort => None,
        }
    }
}

/// What `-printf` prints for a format.
pub open spec fn printf_spec(format: Seq<char>, info: PrintfInfo) -> Option<Seq<char>> {
    printf_from(format, 0, info)
}

/// A shorter run of digits has no greater value.
pub proof fn lemma_digits_prefix(s: Seq<char>, k: int)
    requires
        0 <= k <= s.len(),
        forall|j: int| 0 <= j < s.len() ==> '0' <= #[trigger] s[j] <= '9',
    ensures
        crate::text::digits_value(s.take(k)) <= crate::text::digits_value(s),
    decreases s.len(),
{
    if k < s.len() {
        assert(s.drop_last().take(k) =~= s.take(k));
        lemma_digits_prefix(s.drop_last(), k);
        assert(crate::text::digits_value(s) == crate::text::digits_value_radix(s.drop_last(), 10) * 10
            + ((s.last() as u32) - 48) as nat);
    } else {
        assert(s.take(k) =~= s);
    }
}

fn push_padded(out: &mut String, v: &str, width: usize, left: bool, zero: bool)
    ensures
        final(out)@ == old(out)@ + padded(v@, width as nat, left, zero),
{
    let n = chars_of(v).len();
    let ghost start = out@;
    if width > n {
        if left {
            out.append(v);
            push_repeat(out, ' ', width - n);
            proof {
                assert(out@ =~= start + padded(v@, width as nat, left, zero));
            }
        } else {
            push_repeat(out, if zero { '0' } else { ' ' }, width - n);
            out.append(v);
            proof {
                assert(out@ =~= start + padded(v@, width as nat, left, zero));
            }
        }
    } else {
        out.append(v);
    }
}

/// The step at a backslash: prints its character; where the format goes
/// on, or `None` when it ends here.
fn escape_step_exec(f: &Vec<char>, i: usize, out: &mut String) -> (r: Option<usize>)
    requires
        i < f.len(),
        f@[i as int] == '\\',
    ensures
        match escape_step(f@, i as int) {
            PrintfStep::Emit(p, n) => r == Some(n as usize) && final(out)@ == old(out)@ + p && n <= f.len(),
            PrintfStep::Stop(p) => r is None && final(out)@ == old(out)@ + p,
            PrintfStep::Abort => false,
        },
{
    let ghost before = out@;
    if i + 1 >= f.len() {
        push_char(out, '\\');
        proof {
            assert(out@ =~= before + seq!['\\']);
        }
        return None;
    }
    let e = f[i + 1];
    if e == 'c' {
        proof {
            assert(out@ =~= before + Seq::<char>::empty());
        }
        return None;
    }
    let se: Option<char> = if e == 'a' { Some('\x07') } else if e == 'b' { Some('\x08') }
        else if e == 'f' { Some('\x0C') } else if e == 'n' { Some('\n') } else if e == 'r' { Some('\r') }
        else if e == 't' { Some('\t') } else if e == 'v' { Some('\x0B') } else if e == '\\' { Some('\\') }
        else { None };
    assert(se == simple_escape(e));
    match se {
        Some(x) => {
            push_char(out, x);
            proof {
                assert(out@ =~= before + seq![x]);
            }
            Some(i + 2)
        },
        None => {
            if '0' <= e && e <= '7' {
                let mut val: u32 = (e as u32) - 48;
                let mut j = i + 2;
                if j < f.len() && '0' <= f[j] && f[j] <= '7' {
                    val = val * 8 + ((f[j] as u32) - 48);
                    j += 1;
                    if j < f.len() && '0' <= f[j] && f[j] <= '7' {
                        val = val * 8 + ((f[j] as u32) - 48);
                        j += 1;
                    }
                }
                let ghost oe = octal_escape(f@, i + 1);
                assert(val as int == oe.0 && j as int == oe.1);
                let ch = match crate::groff::special::char_from_code(val) {
                    Some(ch) => ch,
                    None => '\0',
                };
                assert(ch == (oe.0 as char));
                push_char(out, ch);
                proof {
                    assert(out@ =~= before + seq![ch]);
                }
                Some(j)
            } else {
                push_char(out, '\\');
                push_char(out, e);
                proof {
                    assert(out@ =~= before + seq!['\\', e]);
                }
                Some(i + 2)
            }
        },
    }
}

/// The step at a `%`: prints the directive's value; where the format goes
/// on, or `None` when it ends here.
fn percent_step_exec(f: &Vec<char>, i: usize, info: &PrintfInfo, out: &mut String) -> (r: Option<usize>)
    requires
        i < f.len(),
        f@[i as int] == '%',
        !(percent_step(f@, i as int, *info) is Abort),
    ensures
        match percent_step(f@, i as int, *info) {
            PrintfStep::Emit(p, n) => r == Some(n as usize) && final(out)@ == old(out)@ + p && i < n <= f.len(),
            PrintfStep::Stop(p) => r is None && final(out)@ == old(out)@ + p,
            PrintfStep::Abort => false,
        },
{
    let ghost before = out@;
    let mut left = false;
    let mut zero = false;
    let mut j = i + 1;
    let ghost fr = flag_run(f@, i + 1);
    while j < f.len() && (f[j] == '-' || f[j] == '0' || f[j] == '+' || f[j] == ' ' || f[j] == '#')
        invariant
            i + 1 <= j <= f.len(),
            fr == flag_run(f@, i + 1),
            fr.0 == flag_run(f@, j as int).0,
            fr.1 == (left || flag_run(f@, j as int).1),
            fr.2 == (zero || flag_run(f@, j as int).2),
        decreases f.len() - j,
    {
        if f[j] == '-' {
            left = true;
        }
        if f[j] == '0' {
            zero = true;
        }
        j += 1;
    }
    proof {
        lemma_runs_end(f@, j as int);
    }
    let ghost k_end = digits_end(f@, j as int);
    let ghost wv = crate::text::digits_value(f@.subrange(j as int, k_end));
    assert forall|x: int| 0 <= x < f@.subrange(j as int, k_end).len() implies
        '0' <= #[trigger] f@.subrange(j as int, k_end)[x] <= '9' by {
        lemma_digits_run(f@, j as int, j + x);
    }
    assert(wv <= usize::MAX);
    let mut width: usize = 0;
    let mut k = j;
    proof {
        assert(f@.subrange(j as int, k as int) =~= Seq::<char>::empty());
    }
    while k < f.len() && '0' <= f[k] && f[k] <= '9'
        invariant
            j <= k <= f.len(),
            digits_end(f@, j as int) == digits_end(f@, k as int),
            k_end == digits_end(f@, j as int),
            j <= k <= k_end,
            width as int == crate::text::digits_value(f@.subrange(j as int, k as int)),
            wv == crate::text::digits_value(f@.subrange(j as int, k_end)),
            wv <= usize::MAX,
            forall|x: int| 0 <= x < f@.subrange(j as int, k_end).len() ==> '0' <= #[trigger] f@.subrange(j as int, k_end)[x] <= '9',
        decreases f.len() - k,
    {
        proof {
            lemma_runs_end(f@, k + 1);
            assert(f@.subrange(j as int, k + 1) =~= f@.subrange(j as int, k_end).take(k + 1 - j));
            lemma_digits_prefix(f@.subrange(j as int, k_end), k + 1 - j);
            assert(f@.subrange(j as int, k + 1).drop_last() =~= f@.subrange(j as int, k as int));
        }
        width = width * 10 + ((f[k] as u32) - 48) as usize;
        k += 1;
    }
    let mut m = k;
    if k < f.len() && f[k] == '.' {
        m = k + 1;
        while m < f.len() && '0' <= f[m] && f[m] <= '9'
            invariant
                k + 1 <= m <= f.len(),
                digits_end(f@, k + 1) == digits_end(f@, m as int),
            decreases f.len() - m,
        {
            m += 1;
        }
    }
    if m >= f.len() {
        push_char(out, '%');
        proof {
            assert(out@ =~= before + seq!['%']);
        }
        return None;
    }
    let dir = f[m];
    let next = if m + 1 < f.len() { Some(f[m + 1]) } else { None };
    let (val, used) = printf_directive_value(dir, next, info);
    match val {
        Some(v) => push_padded(out, v.as_str(), width, left, zero),
        None => {
            push_char(out, '%');
            push_char(out, dir);
            proof {
                assert(out@ =~= before + seq!['%', dir]);
            }
        },
    }
    if used {
        Some(m + 2)
    } else {
        Some(m + 1)
    }
}

/// Formats a `-printf` format for a file: escapes, directives with their
/// flags, width and precision (read and not used), as `printf_spec`
/// says; `\c` ends the output. A width that does not fit in a `usize`
/// stops `find`, so such formats are left out.
pub fn format_printf(format: &str, info: &PrintfInfo) -> (r: String)
    requires
        printf_spec(format@, *info) is Some,
    ensures
        printf_spec(format@, *info) == Some(r@),
{
    let f = chars_of(format);
    let mut out = String::new();
    let mut i: usize = 0;
    proof {
        assert(prepend(out@, printf_from(f@, 0, *info)) =~= printf_from(f@, 0, *info));
    }
    while i < f.len()
        invariant
            i <= f.len(),
            f@ == format@,
            printf_from(f@, 0, *info) is Some,
            printf_from(f@, 0, *info) == prepend(out@, printf_from(f@, i as int, *info)),
        decreases f.len() - i,
    {
        let ghost before = out@;
        let c = f[i];
        let next = if c == '\\' {
            escape_step_exec(&f, i, &mut out)
        } else if c == '%' {
            percent_step_exec(&f, i, info, &mut out)
        } else {
            push_char(&mut out, c);
            proof {
                assert(out@ =~= before + seq![c]);
            }
            Some(i + 1)
        };
        match next {
            Some(n) => {
                proof {
                    assert(prepend(before, printf_from(f@, i as int, *info)) =~= prepend(out@, printf_from(f@, n as int, *info)));
                }
                i = n;
            },
            None => {
                proof {
                    assert(prepend(before, printf_from(f@, i as int, *info)) == Some(out@));
                }
                return out;
            },
        }
    }
    proof {
        assert(prepend(out@, Some(Seq::<char>::empty())) =~= Some(out@));
    }
    out
}

/// The characters from `j` up to where the run of digits ends are digits.
pub proof fn lemma_digits_run(f: Seq<char>, j: int, x: int)
    requires
        0 <= j <= x < digits_end(f, j),
    ensures
        '0' <= f[x] <= '9',
    decreases f.len() - j,
{
    if 0 <= j < f.len() && '0' <= f[j] <= '9' {
        if x > j {
            lemma_digits_run(f, j + 1, x);
        }
    }
}

} // verus!
