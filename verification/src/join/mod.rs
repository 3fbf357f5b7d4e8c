//! The library side of `join`: its command line, the fields of a line, the
//! lines it prints, and the merge of two sorted inputs.
use vstd::prelude::*;
use crate::text::{chars_of, chars_eq_str, str_eq, string_of, slice_chars, starts_with_str, is_prefix,
    parse_usize, parse_int_spec, concat, split_on, push_pieces, lowercase_of, to_lowercase};
use crate::find::expression::strings_view;

pub mod args;

verus! {

/// One field of `-o`: file 0 is the join field, file 1 or 2 a field of
/// that file (counted from 1).
#[derive(Debug, Clone, Copy, PartialEq, Eq, Structural)]
pub struct OutputSpec {
    pub file: usize,
    pub field: usize,
}

/// The settings of `join`.
#[derive(Debug)]
pub struct Config {
    pub file1: String,
    pub file2: String,
    pub field1: usize,
    pub field2: usize,
    pub input_separator: Option<char>,
    pub output_separator: String,
    pub output_format: Option<Vec<OutputSpec>>,
    pub empty_replacement: String,
    pub print_unpaired: Vec<usize>,
    pub only_unpaired: Vec<usize>,
    pub ignore_case: bool,
    pub check_order: bool,
    pub nocheck_order: bool,
    pub header: bool,
    pub zero_terminated: bool,
    pub show_help: bool,
    pub show_version: bool,
}

impl Default for Config {
    fn default() -> (r: Config)
        ensures
            r.file1@ == Seq::<char>::empty(),
            r.file2@ == Seq::<char>::empty(),
            r.field1 == 1,
            r.field2 == 1,
            r.input_separator is None,
            r.output_separator@ == " "@,
            r.output_format is None,
            r.empty_replacement@ == Seq::<char>::empty(),
            r.print_unpaired@ == Seq::<usize>::empty(),
            r.only_unpaired@ == Seq::<usize>::empty(),
            !r.ignore_case && !r.check_order && !r.nocheck_order && !r.header && !r.zero_terminated,
            !r.show_help && !r.show_version,
    {
        Config {
            file1: String::new(),
            file2: String::new(),
            field1: 1,
            field2: 1,
            input_separator: None,
            output_separator: String::from_str(" "),
            output_format: None,
            empty_replacement: String::new(),
            print_unpaired: Vec::new(),
            only_unpaired: Vec::new(),
            ignore_case: false,
            check_order: false,
            nocheck_order: false,
            header: false,
            zero_terminated: false,
            show_help: false,
            show_version: false,
        }
    }
}

/// White space as `char::is_whitespace` has it: the characters of the
/// Unicode `White_Space` property.
pub open spec fn is_white(c: char) -> bool {
    let u = c as u32;
    (0x09 <= u <= 0x0D) || u == 0x20 || u == 0x85 || u == 0xA0 || u == 0x1680
        || (0x2000 <= u <= 0x200A) || u == 0x2028 || u == 0x2029 || u == 0x202F || u == 0x205F
        || u == 0x3000
}

/// Whether `c` is white space.
pub fn is_white_char(c: char) -> (r: bool)
    ensures
        r == is_white(c),
{
    let u = c as u32;
    (0x09 <= u && u <= 0x0D) || u == 0x20 || u == 0x85 || u == 0xA0 || u == 0x1680
        || (0x2000 <= u && u <= 0x200A) || u == 0x2028 || u == 0x2029 || u == 0x202F || u == 0x205F
        || u == 0x3000
}

/// The runs of non-white characters of `s[i..]`, the current run having
/// begun at `begin` (or none having begun when `begin` is `None`).
pub open spec fn words_from(s: Seq<char>, begin: Option<int>, i: int) -> Seq<Seq<char>>
    decreases s.len() - i,
{
    if i >= s.len() {
        match begin {
            Some(b) => seq![s.subrange(b, s.len() as int)],
            None => Seq::empty(),
        }
    } else if is_white(s[i]) {
        match begin {
            Some(b) => seq![s.subrange(b, i)] + words_from(s, None, i + 1),
            None => words_from(s, None, i + 1),
        }
    } else {
        match begin {
            Some(b) => words_from(s, Some(b), i + 1),
            None => words_from(s, Some(i), i + 1),
        }
    }
}

/// `s` without every trailing newline, carriage return and NUL.
pub open spec fn trim_terminators(s: Seq<char>) -> Seq<char>
    decreases s.len(),
{
    if s.len() > 0 && (s.last() == '\n' || s.last() == '\r' || s.last() == '\0') {
        trim_terminators(s.drop_last())
    } else {
        s
    }
}

/// The fields of a line: split at the separator, or at runs of white
/// space, after dropping the line's terminators.
pub open spec fn fields_of(line: Seq<char>, sep: Option<char>) -> Seq<Seq<char>> {
    let t = trim_terminators(line);
    match sep {
        Some(c) => split_on(t, c),
        None => words_from(t, None, 0),
    }
}

/// The runs of non-white characters of `t` (`str::split_whitespace`).
pub fn split_words(t: &[char]) -> (r: Vec<String>)
    ensures
        strings_view(r@) == words_from(t@, None, 0),
{
    let mut r: Vec<String> = Vec::new();
    let mut begin: Option<usize> = None;
    let mut i: usize = 0;
    proof {
        assert(strings_view(r@) + words_from(t@, None, 0) =~= words_from(t@, None, 0));
    }
    while i < t.len()
        invariant
            i <= t.len(),
            match begin {
                Some(b) => b < i,
                None => true,
            },
            words_from(t@, None, 0) == strings_view(r@) + words_from(t@, match begin {
                Some(b) => Some(b as int),
                None => None,
            }, i as int),
        decreases t.len() - i,
    {
        if is_white_char(t[i]) {
            match begin {
                Some(b) => {
                    let w = string_of(&slice_chars(&t, b, i));
                    let ghost before = strings_view(r@);
                    r.push(w);
                    proof {
                        assert(strings_view(r@) =~= before.push(w@));
                        assert(before + (seq![t@.subrange(b as int, i as int)] + words_from(t@, None, i + 1))
                            =~= strings_view(r@) + words_from(t@, None, i + 1));
                    }
                },
                None => {},
            }
            begin = None;
        } else {
            if begin.is_none() {
                begin = Some(i);
            }
        }
        i += 1;
    }
    match begin {
        Some(b) => {
            let w = string_of(&slice_chars(&t, b, t.len()));
            let ghost before = strings_view(r@);
            r.push(w);
            proof {
                assert(strings_view(r@) =~= before.push(w@));
            }
        },
        None => {
            proof {
                assert(strings_view(r@) + Seq::<Seq<char>>::empty() =~= strings_view(r@));
            }
        },
    }
    r
}

/// The fields of a line.
pub fn split_fields(line: &str, separator: Option<char>) -> (r: Vec<String>)
    ensures
        strings_view(r@) == fields_of(line@, separator),
{
    let v = chars_of(line);
    let mut end = v.len();
    proof {
        assert(v@.take(v@.len() as int) =~= v@);
    }
    while end > 0 && (v[end - 1] == '\n' || v[end - 1] == '\r' || v[end - 1] == '\0')
        invariant
            end <= v.len(),
            trim_terminators(v@.take(end as int)) == trim_terminators(v@),
        decreases end,
    {
        proof {
            assert(v@.take(end as int).drop_last() =~= v@.take(end - 1));
        }
        end -= 1;
    }
    proof {
        assert(v@.take(0) =~= v@.take(0).take(0));
        if end > 0 {
            assert(v@.take(end as int).last() == v@[end - 1]);
        }
        assert(v@.take(v@.len() as int) =~= v@);
    }
    let t = slice_chars(&v, 0, end);
    proof {
        assert(t@ =~= v@.take(end as int));
        assert(trim_terminators(t@) == t@);
    }
    let mut r: Vec<String> = Vec::new();
    match separator {
        Some(c) => {
            let ts = string_of(&t);
            push_pieces(&mut r, ts.as_str(), c);
            proof {
                assert(strings_view(r@) =~= split_on(t@, c));
            }
        },
        None => {
            r = split_words(&t);
        },
    }
    r
}

/// The join field of a line: empty when the field is 0 or missing, lower-
/// cased with `-i`.
pub open spec fn join_key(fields: Seq<Seq<char>>, field_num: nat, ignore_case: bool) -> Seq<char> {
    if field_num == 0 || field_num > fields.len() {
        Seq::empty()
    } else if ignore_case {
        lowercase_of(fields[field_num - 1])
    } else {
        fields[field_num - 1]
    }
}

/// The join field of a line.
pub fn get_join_key(fields: &[String], field_num: usize, ignore_case: bool) -> (r: String)
    ensures
        r@ == join_key(strings_view(fields@), field_num as nat, ignore_case),
{
    if field_num == 0 || field_num > fields.len() {
        return String::new();
    }
    let key = &fields[field_num - 1];
    if ignore_case {
        to_lowercase(key.as_str())
    } else {
        key.clone()
    }
}

/// The pieces joined with `sep` between them.
pub open spec fn joined(parts: Seq<Seq<char>>, sep: Seq<char>) -> Seq<char>
    decreases parts.len(),
{
    if parts.len() == 0 {
        Seq::empty()
    } else if parts.len() == 1 {
        parts[0]
    } else {
        joined(parts.drop_last(), sep) + sep + parts.last()
    }
}

/// The pieces joined with `sep` between them.
pub fn join_strings(parts: &[String], sep: &str) -> (r: String)
    ensures
        r@ == joined(strings_view(parts@), sep@),
{
    let ghost sp = strings_view(parts@);
    let mut r = String::new();
    let mut k: usize = 0;
    proof {
        assert(sp.take(0) =~= Seq::<Seq<char>>::empty());
    }
    while k < parts.len()
        invariant
            k <= parts.len(),
            sp == strings_view(parts@),
            r@ == joined(sp.take(k as int), sep@),
        decreases parts.len() - k,
    {
        if k > 0 {
            r.append(sep);
        }
        r.append(parts[k].as_str());
        proof {
            assert(sp.take(k + 1).drop_last() =~= sp.take(k as int));
            if k == 0 {
                assert(sp.take(1) =~= seq![sp[0]]);
            }
        }
        k += 1;
    }
    proof {
        assert(sp.take(parts.len() as int) =~= sp);
    }
    r
}

/// Field `n` (from 1), or `empty` when there is none.
pub open spec fn field_or(fields: Seq<Seq<char>>, n: nat, empty: Seq<char>) -> Seq<char> {
    if n > 0 && n <= fields.len() { fields[n - 1] } else { empty }
}

/// The join field of a pair of lines: from the first line when it has it,
/// else from the second.
pub open spec fn pair_join_field(f1: Seq<Seq<char>>, f2: Seq<Seq<char>>, field1: nat, field2: nat) -> Option<Seq<char>> {
    if f1.len() > 0 && field1 <= f1.len() {
        Some(f1[field1 - 1])
    } else if f2.len() > 0 && field2 <= f2.len() {
        Some(f2[field2 - 1])
    } else {
        None
    }
}

/// Whether the join field of a pair can be read: `join` fails on a field
/// number 0 where the line has fields.
pub open spec fn join_field_readable(f1: Seq<Seq<char>>, f2: Seq<Seq<char>>, field1: nat, field2: nat) -> bool {
    &&& !(f1.len() > 0 && field1 == 0)
    &&& !(!(f1.len() > 0 && field1 <= f1.len()) && f2.len() > 0 && field2 == 0)
}

/// The fields other than field `n` (from 1).
pub open spec fn other_fields(fields: Seq<Seq<char>>, n: nat) -> Seq<Seq<char>>
    decreases fields.len(),
{
    if fields.len() == 0 {
        Seq::empty()
    } else {
        other_fields(fields.drop_last(), n) + (if fields.len() == n { Seq::empty() } else { seq![fields.last()] })
    }
}

/// One field of the `-o` list for a pair of lines.
pub open spec fn pair_field(spec: OutputSpec, f1: Seq<Seq<char>>, f2: Seq<Seq<char>>, field1: nat, field2: nat, empty: Seq<char>) -> Seq<char> {
    if spec.file == 0 {
        match pair_join_field(f1, f2, field1, field2) {
            Some(x) => x,
            None => empty,
        }
    } else if spec.file == 1 {
        field_or(f1, spec.field as nat, empty)
    } else if spec.file == 2 {
        field_or(f2, spec.field as nat, empty)
    } else {
        empty
    }
}

/// The fields printed for a pair of lines: the `-o` list, or the join field
/// then the other fields of each line.
pub open spec fn pair_parts(f1: Seq<Seq<char>>, f2: Seq<Seq<char>>, format: Option<Seq<OutputSpec>>, field1: nat, field2: nat, empty: Seq<char>) -> Seq<Seq<char>> {
    match format {
        Some(fmt) => fmt.map_values(|s: OutputSpec| pair_field(s, f1, f2, field1, field2, empty)),
        None => (match pair_join_field(f1, f2, field1, field2) {
            Some(x) => seq![x],
            None => Seq::empty(),
        }) + other_fields(f1, field1) + other_fields(f2, field2),
    }
}

pub open spec fn format_view(f: Option<Vec<OutputSpec>>) -> Option<Seq<OutputSpec>> {
    match f {
        Some(v) => Some(v@),
        None => None,
    }
}

/// The join field of a pair of lines, or `None`.
fn pair_join_field_exec(fields1: &[String], fields2: &[String], field1: usize, field2: usize) -> (r: Option<String>)
    requires
        join_field_readable(strings_view(fields1@), strings_view(fields2@), field1 as nat, field2 as nat),
    ensures
        match r {
            Some(x) => pair_join_field(strings_view(fields1@), strings_view(fields2@), field1 as nat, field2 as nat) == Some(x@),
            None => pair_join_field(strings_view(fields1@), strings_view(fields2@), field1 as nat, field2 as nat) is None,
        },
{
    if !fields1.is_empty() && field1 <= fields1.len() {
        Some(fields1[field1 - 1].clone())
    } else if !fields2.is_empty() && field2 <= fields2.len() {
        Some(fields2[field2 - 1].clone())
    } else {
        None
    }
}

/// Field `n`, or the replacement of empty fields.
fn field_or_exec(fields: &[String], n: usize, empty: &String) -> (r: String)
    ensures
        r@ == field_or(strings_view(fields@), n as nat, empty@),
{
    if n > 0 && n <= fields.len() {
        fields[n - 1].clone()
    } else {
        empty.clone()
    }
}

/// Appends the fields other than field `n`.
fn push_other_fields(parts: &mut Vec<String>, fields: &[String], n: usize)
    ensures
        strings_view(final(parts)@) == strings_view(old(parts)@) + other_fields(strings_view(fields@), n as nat),
{
    let ghost sf = strings_view(fields@);
    let ghost start = strings_view(parts@);
    let mut i: usize = 0;
    proof {
        assert(sf.take(0) =~= Seq::<Seq<char>>::empty());
        assert(start + other_fields(sf.take(0), n as nat) =~= start);
    }
    while i < fields.len()
        invariant
            i <= fields.len(),
            sf == strings_view(fields@),
            strings_view(parts@) == start + other_fields(sf.take(i as int), n as nat),
        decreases fields.len() - i,
    {
        let ghost before = strings_view(parts@);
        if i + 1 != n {
            parts.push(fields[i].clone());
        }
        proof {
            assert(sf.take(i + 1).drop_last() =~= sf.take(i as int));
            assert(strings_view(parts@) =~= before + (if i + 1 == n { Seq::<Seq<char>>::empty() } else { seq![sf[i as int]] }));
        }
        i += 1;
    }
    proof {
        assert(sf.take(fields.len() as int) =~= sf);
    }
}

/// The line printed for a pair of lines with equal join fields.
pub fn format_output(fields1: &[String], fields2: &[String], config: &Config) -> (r: String)
    requires
        join_field_readable(strings_view(fields1@), strings_view(fields2@), config.field1 as nat, config.field2 as nat),
    ensures
        r@ == joined(pair_parts(strings_view(fields1@), strings_view(fields2@), format_view(config.output_format),
            config.field1 as nat, config.field2 as nat, config.empty_replacement@), config.output_separator@),
{
    let ghost f1 = strings_view(fields1@);
    let ghost f2 = strings_view(fields2@);
    let mut parts: Vec<String> = Vec::new();
    match &config.output_format {
        Some(format) => {
            let ghost want = format@.map_values(|s: OutputSpec| pair_field(s, f1, f2, config.field1 as nat, config.field2 as nat, config.empty_replacement@));
            let mut k: usize = 0;
            while k < format.len()
                invariant
                    k <= format.len(),
                    config.output_format == Some(*format),
                    f1 == strings_view(fields1@),
                    f2 == strings_view(fields2@),
                    join_field_readable(f1, f2, config.field1 as nat, config.field2 as nat),
                    want == format@.map_values(|s: OutputSpec| pair_field(s, f1, f2, config.field1 as nat, config.field2 as nat, config.empty_replacement@)),
                    strings_view(parts@) == want.take(k as int),
                decreases format.len() - k,
            {
                let spec = format[k];
                let value = if spec.file == 0 {
                    match pair_join_field_exec(fields1, fields2, config.field1, config.field2) {
                        Some(x) => x,
                        None => config.empty_replacement.clone(),
                    }
                } else if spec.file == 1 {
                    field_or_exec(fields1, spec.field, &config.empty_replacement)
                } else if spec.file == 2 {
                    field_or_exec(fields2, spec.field, &config.empty_replacement)
                } else {
                    config.empty_replacement.clone()
                };
                let ghost before = strings_view(parts@);
                parts.push(value);
                proof {
                    assert(strings_view(parts@) =~= before.push(value@));
                    assert(want.take(k + 1) =~= want.take(k as int).push(want[k as int]));
                }
                k += 1;
            }
            proof {
                assert(want.take(format.len() as int) =~= want);
            }
        },
        None => {
            match pair_join_field_exec(fields1, fields2, config.field1, config.field2) {
                Some(x) => parts.push(x),
                None => {},
            }
            let ghost head = strings_view(parts@);
            push_other_fields(&mut parts, fields1, config.field1);
            push_other_fields(&mut parts, fields2, config.field2);
            proof {
                assert(head == (match pair_join_field(f1, f2, config.field1 as nat, config.field2 as nat) {
                    Some(x) => seq![x],
                    None => Seq::<Seq<char>>::empty(),
                }));
            }
        },
    }
    join_strings(parts.as_slice(), config.output_separator.as_str())
}

/// One field of the `-o` list for a line of file `file_num` alone.
pub open spec fn unpaired_field(spec: OutputSpec, fields: Seq<Seq<char>>, file_num: nat, field_num: nat, empty: Seq<char>) -> Seq<char> {
    if spec.file == 0 {
        field_or(fields, field_num, empty)
    } else if spec.file == file_num {
        field_or(fields, spec.field as nat, empty)
    } else {
        empty
    }
}

/// The fields printed for a line without a partner.
pub open spec fn unpaired_parts(fields: Seq<Seq<char>>, file_num: nat, format: Option<Seq<OutputSpec>>, field1: nat, field2: nat, empty: Seq<char>) -> Seq<Seq<char>> {
    match format {
        Some(fmt) => {
            let field_num = if file_num == 1 { field1 } else { field2 };
            fmt.map_values(|s: OutputSpec| unpaired_field(s, fields, file_num, field_num, empty))
        },
        None => fields,
    }
}

/// The line printed for a line of file `file_num` without a partner.
pub fn format_unpaired(fields: &[String], file_num: usize, config: &Config) -> (r: String)
    ensures
        r@ == joined(unpaired_parts(strings_view(fields@), file_num as nat, format_view(config.output_format),
            config.field1 as nat, config.field2 as nat, config.empty_replacement@), config.output_separator@),
{
    let ghost sf = strings_view(fields@);
    match &config.output_format {
        Some(format) => {
            let field_num = if file_num == 1 { config.field1 } else { config.field2 };
            let ghost want = format@.map_values(|s: OutputSpec| unpaired_field(s, sf, file_num as nat, field_num as nat, config.empty_replacement@));
            let mut parts: Vec<String> = Vec::new();
            let mut k: usize = 0;
            while k < format.len()
                invariant
                    k <= format.len(),
                    sf == strings_view(fields@),
                    want == format@.map_values(|s: OutputSpec| unpaired_field(s, sf, file_num as nat, field_num as nat, config.empty_replacement@)),
                    strings_view(parts@) == want.take(k as int),
                decreases format.len() - k,
            {
                let spec = format[k];
                let value = if spec.file == 0 {
                    field_or_exec(fields, field_num, &config.empty_replacement)
                } else if spec.file == file_num {
                    field_or_exec(fields, spec.field, &config.empty_replacement)
                } else {
                    config.empty_replacement.clone()
                };
                let ghost before = strings_view(parts@);
                parts.push(value);
                proof {
                    assert(strings_view(parts@) =~= before.push(value@));
                    assert(want.take(k + 1) =~= want.take(k as int).push(want[k as int]));
                }
                k += 1;
            }
            proof {
                assert(want.take(format.len() as int) =~= want);
            }
            join_strings(parts.as_slice(), config.output_separator.as_str())
        },
        None => {
            join_strings(fields, config.output_separator.as_str())
        },
    }
}

/// `s` without white space at either end (`str::trim`).
pub open spec fn trim_white(s: Seq<char>) -> Seq<char>
    decreases s.len(),
{
    if s.len() > 0 && is_white(s[0]) {
        trim_white(s.drop_first())
    } else if s.len() > 0 && is_white(s.last()) {
        trim_white(s.drop_last())
    } else {
        s
    }
}

/// `v` without white space at either end.
pub fn trim_white_chars(v: &[char]) -> (r: Vec<char>)
    ensures
        r@ == trim_white(v@),
{
    let mut lo: usize = 0;
    let mut hi: usize = v.len();
    proof {
        assert(v@.subrange(0, v@.len() as int) =~= v@);
    }
    while lo < hi && is_white_char(v[lo])
        invariant
            lo <= hi <= v.len(),
            hi == v.len(),
            trim_white(v@.subrange(lo as int, hi as int)) == trim_white(v@),
        decreases hi - lo,
    {
        proof {
            assert(v@.subrange(lo as int, hi as int).drop_first() =~= v@.subrange(lo + 1, hi as int));
        }
        lo += 1;
    }
    while lo < hi && is_white_char(v[hi - 1])
        invariant
            lo <= hi <= v.len(),
            lo < hi ==> !is_white(v@[lo as int]),
            trim_white(v@.subrange(lo as int, hi as int)) == trim_white(v@),
        decreases hi - lo,
    {
        proof {
            let t = v@.subrange(lo as int, hi as int);
            assert(t[0] == v@[lo as int]);
            assert(t.drop_last() =~= v@.subrange(lo as int, hi - 1));
        }
        hi -= 1;
    }
    proof {
        let t = v@.subrange(lo as int, hi as int);
        if lo < hi {
            assert(t[0] == v@[lo as int]);
            assert(t.last() == v@[hi - 1]);
        }
        assert(trim_white(t) == t);
    }
    slice_chars(v, lo, hi)
}

/// One item of `-o` (already trimmed), when it is `0` or `file.field`:
/// the field, or the error; `auto` and other texts give `None`.
pub open spec fn output_item(part: Seq<char>) -> Option<Result<OutputSpec, Seq<char>>> {
    if part == "0"@ {
        Some(Ok(OutputSpec { file: 0, field: 0 }))
    } else if part.contains('.') {
        let pieces = split_on(part, '.');
        if pieces.len() != 2 {
            Some(Err("無効な出力フォーマット: '"@ + part + "'"@))
        } else {
            match parse_int_spec(pieces[0], 0, usize::MAX as int) {
                None => Some(Err("無効なファイル番号: '"@ + pieces[0] + "'"@)),
                Some(file) => match parse_int_spec(pieces[1], 0, usize::MAX as int) {
                    None => Some(Err("無効なフィールド番号: '"@ + pieces[1] + "'"@)),
                    Some(field) => if file != 1 && file != 2 {
                        Some(Err("ファイル番号は1または2: '"@ + crate::text::decimal(file as nat) + "'"@))
                    } else {
                        Some(Ok(OutputSpec { file: file as usize, field: field as usize }))
                    },
                },
            }
        }
    } else {
        None
    }
}

/// The `-o` list from the items `parts[k..]`, the fields so far being
/// `acc`: an `auto` item stops with the empty list, any other text is an
/// error.
pub open spec fn output_format_from(parts: Seq<Seq<char>>, k: int, acc: Seq<OutputSpec>) -> Result<Seq<OutputSpec>, Seq<char>>
    decreases parts.len() - k,
{
    if k >= parts.len() || k < 0 {
        Ok(acc)
    } else {
        let part = trim_white(parts[k]);
        match output_item(part) {
            Some(Ok(spec)) => output_format_from(parts, k + 1, acc.push(spec)),
            Some(Err(e)) => Err(e),
            None => if part == "auto"@ {
                Ok(Seq::empty())
            } else {
                Err("無効な出力フォーマット: '"@ + part + "'"@)
            },
        }
    }
}

/// One item of `-o`.
fn parse_output_item(part: &[char]) -> (r: Option<Result<OutputSpec, String>>)
    ensures
        match output_item(part@) {
            Some(Ok(spec)) => r == Some(Ok::<OutputSpec, String>(spec)),
            Some(Err(e)) => match r {
                Some(Err(m)) => m@ == e,
                _ => false,
            },
            None => r is None,
        },
{
    if chars_eq_str(part, "0") {
        return Some(Ok(OutputSpec { file: 0, field: 0 }));
    }
    if !crate::text::contains_char(part, '.') {
        return None;
    }
    let ps = string_of(part);
    let mut pieces: Vec<String> = Vec::new();
    push_pieces(&mut pieces, ps.as_str(), '.');
    proof {
        assert(strings_view(pieces@) =~= split_on(part@, '.'));
    }
    if pieces.len() != 2 {
        return Some(Err(crate::text::wrap_chars("無効な出力フォーマット: '", part, "'")));
    }
    let a = chars_of(pieces[0].as_str());
    let b = chars_of(pieces[1].as_str());
    match parse_usize(&a) {
        None => Some(Err(crate::text::wrap_chars("無効なファイル番号: '", &a, "'"))),
        Some(file) => match parse_usize(&b) {
            None => Some(Err(crate::text::wrap_chars("無効なフィールド番号: '", &b, "'"))),
            Some(field) => {
                if file != 1 && file != 2 {
                    let d = crate::text::decimal_string(file as u64);
                    Some(Err(crate::text::join3("ファイル番号は1または2: '", d.as_str(), "'")))
                } else {
                    Some(Ok(OutputSpec { file, field }))
                }
            },
        },
    }
}

/// Reads an `-o` list: items separated by commas, each `0`, `file.field`
/// or `auto` (which gives the empty list, the default).
pub fn parse_output_format(s: &str) -> (r: Result<Vec<OutputSpec>, String>)
    ensures
        match output_format_from(split_on(s@, ','), 0, Seq::empty()) {
            Ok(v) => match r {
                Ok(x) => x@ == v,
                Err(_) => false,
            },
            Err(e) => match r {
                Err(m) => m@ == e,
                Ok(_) => false,
            },
        },
{
    let mut parts: Vec<String> = Vec::new();
    push_pieces(&mut parts, s, ',');
    let ghost sp = strings_view(parts@);
    proof {
        assert(sp =~= split_on(s@, ','));
    }
    let mut specs: Vec<OutputSpec> = Vec::new();
    let mut k: usize = 0;
    while k < parts.len()
        invariant
            k <= parts.len(),
            sp == strings_view(parts@),
            sp == split_on(s@, ','),
            output_format_from(sp, 0, Seq::empty()) == output_format_from(sp, k as int, specs@),
        decreases parts.len() - k,
    {
        let pv = chars_of(parts[k].as_str());
        let part = trim_white_chars(&pv);
        match parse_output_item(&part) {
            Some(Ok(spec)) => {
                specs.push(spec);
            },
            Some(Err(e)) => {
                return Err(e);
            },
            None => {
                if chars_eq_str(&part, "auto") {
                    return Ok(Vec::new());
                }
                return Err(crate::text::wrap_chars("無効な出力フォーマット: '", &part, "'"));
            },
        }
        k += 1;
    }
    Ok(specs)
}

/// What the merge of `join` reads of the settings.
pub struct JoinCfg {
    pub sep: Option<char>,
    pub field1: nat,
    pub field2: nat,
    pub ignore_case: bool,
    pub check: bool,
    pub print_unpaired: Seq<usize>,
    pub only_unpaired: Seq<usize>,
    pub format: Option<Seq<OutputSpec>>,
    pub out_sep: Seq<char>,
    pub empty: Seq<char>,
    pub header: bool,
}

pub open spec fn cfg_of(c: &Config) -> JoinCfg {
    JoinCfg {
        sep: c.input_separator,
        field1: c.field1 as nat,
        field2: c.field2 as nat,
        ignore_case: c.ignore_case,
        check: c.check_order && !c.nocheck_order,
        print_unpaired: c.print_unpaired@,
        only_unpaired: c.only_unpaired@,
        format: format_view(c.output_format),
        out_sep: c.output_separator@,
        empty: c.empty_replacement@,
        header: c.header,
    }
}

/// Whether `a` sorts before `b`: by code points, a prefix first.
pub open spec fn text_less(a: Seq<char>, b: Seq<char>) -> bool
    decreases a.len(),
{
    if a.len() == 0 {
        b.len() > 0
    } else if b.len() == 0 {
        false
    } else if a[0] != b[0] {
        (a[0] as int) < (b[0] as int)
    } else {
        text_less(a.drop_first(), b.drop_first())
    }
}

/// Whether `a` sorts before `b`.
pub(crate) fn text_less_exec(a: &[char], b: &[char]) -> (r: bool)
    ensures
        r == text_less(a@, b@),
{
    let mut i: usize = 0;
    proof {
        assert(a@.skip(0) =~= a@);
        assert(b@.skip(0) =~= b@);
    }
    while i < a.len() && i < b.len() && a[i] == b[i]
        invariant
            i <= a.len(),
            i <= b.len(),
            text_less(a@.skip(i as int), b@.skip(i as int)) == text_less(a@, b@),
        decreases a.len() - i,
    {
        proof {
            assert(a@.skip(i as int).drop_first() =~= a@.skip(i + 1));
            assert(b@.skip(i as int).drop_first() =~= b@.skip(i + 1));
        }
        i += 1;
    }
    if i >= a.len() {
        proof {
            assert(a@.skip(i as int).len() == 0);
        }
        i < b.len()
    } else if i >= b.len() {
        false
    } else {
        proof {
            assert(a@.skip(i as int)[0] == a@[i as int]);
            assert(b@.skip(i as int)[0] == b@[i as int]);
        }
        a[i] < b[i]
    }
}

/// The fields of a line of a file.
pub open spec fn fields_at(lines: Seq<Seq<char>>, k: int, cfg: JoinCfg) -> Seq<Seq<char>> {
    if 0 <= k < lines.len() { fields_of(lines[k], cfg.sep) } else { Seq::empty() }
}

/// The key of a line of file 1 (`first`) or 2.
pub open spec fn key_at(lines: Seq<Seq<char>>, k: int, cfg: JoinCfg, first: bool) -> Seq<char> {
    if 0 <= k < lines.len() {
        join_key(fields_at(lines, k, cfg), if first { cfg.field1 } else { cfg.field2 }, cfg.ignore_case)
    } else {
        Seq::empty()
    }
}

/// The first line of file 2 at or after `j` whose key is not `key` (or the
/// end).
pub open spec fn group_end(l2: Seq<Seq<char>>, j: int, key: Seq<char>, cfg: JoinCfg) -> int
    decreases l2.len() - j,
{
    if j >= l2.len() || j < 0 {
        l2.len() as int
    } else if key_at(l2, j, cfg, false) != key {
        j
    } else {
        group_end(l2, j + 1, key, cfg)
    }
}

/// Where the merge stands: the current line of each file, the keys of the
/// last lines passed, and the lines of file 2 kept for a key.
pub struct JoinState {
    pub c1: int,
    pub c2: int,
    pub prev1: Option<Seq<char>>,
    pub prev2: Option<Seq<char>>,
    pub buffer: Seq<Seq<Seq<char>>>,
    pub buffer_key: Option<Seq<char>>,
}

/// The lines printed for each kept line of file 2 with a line of file 1.
pub open spec fn pairs_text(f1: Seq<Seq<char>>, buffer: Seq<Seq<Seq<char>>>, cfg: JoinCfg) -> Seq<Seq<char>> {
    buffer.map_values(|f2: Seq<Seq<char>>| joined(pair_parts(f1, f2, cfg.format, cfg.field1, cfg.field2, cfg.empty), cfg.out_sep))
}

/// The line printed for a line without a partner.
pub open spec fn unpaired_text(fields: Seq<Seq<char>>, file_num: nat, cfg: JoinCfg) -> Seq<char> {
    joined(unpaired_parts(fields, file_num, cfg.format, cfg.field1, cfg.field2, cfg.empty), cfg.out_sep)
}

/// Whether lines of file `n` without a partner are printed.
pub open spec fn shows_unpaired(cfg: JoinCfg, n: usize) -> bool {
    cfg.only_unpaired.contains(n) || (cfg.print_unpaired.contains(n) && cfg.only_unpaired.len() == 0)
}

/// The warning for a line out of order.
pub open spec fn order_warning(file_num: nat, line: Seq<char>) -> Seq<char> {
    "join: ファイル"@ + crate::text::decimal(file_num) + "がソートされていません: "@ + trim_white(line)
}

/// One step of the merge: the lines printed, the warnings, and the state
/// after it.
pub open spec fn join_step(l1: Seq<Seq<char>>, l2: Seq<Seq<char>>, cfg: JoinCfg, s: JoinState) -> (Seq<Seq<char>>, Seq<Seq<char>>, JoinState) {
    let has1 = 0 <= s.c1 < l1.len();
    let has2 = 0 <= s.c2 < l2.len();
    let f1 = fields_at(l1, s.c1, cfg);
    let f2 = fields_at(l2, s.c2, cfg);
    let key1 = key_at(l1, s.c1, cfg, true);
    let key2 = key_at(l2, s.c2, cfg, false);
    let warn1 = match s.prev1 {
        Some(p) => if cfg.check && has1 && text_less(key1, p) { seq![order_warning(1, l1[s.c1])] } else { Seq::empty() },
        None => Seq::empty(),
    };
    let warn2 = match s.prev2 {
        Some(p) => if cfg.check && has2 && text_less(key2, p) { seq![order_warning(2, l2[s.c2])] } else { Seq::empty() },
        None => Seq::empty(),
    };
    let warns = warn1 + warn2;
    if !has1 || (has2 && text_less(key2, key1)) {
        (if shows_unpaired(cfg, 2) { seq![unpaired_text(f2, 2, cfg)] } else { Seq::empty() }, warns,
            JoinState { c2: s.c2 + 1, prev2: Some(key2), ..s })
    } else if !has2 || text_less(key1, key2) {
        (if shows_unpaired(cfg, 1) { seq![unpaired_text(f1, 1, cfg)] } else { Seq::empty() }, warns,
            JoinState { c1: s.c1 + 1, prev1: Some(key1), ..s })
    } else {
        let (out, c2, buffer, bkey) = if cfg.only_unpaired.len() == 0 {
            let (buffer, bkey, c2) = if s.buffer_key != Some(key2) {
                let end = group_end(l2, s.c2 + 1, key2, cfg);
                (Seq::new((end - s.c2) as nat, |k: int| fields_at(l2, s.c2 + k, cfg)), Some(key2), end)
            } else {
                (s.buffer, s.buffer_key, s.c2)
            };
            (pairs_text(f1, buffer, cfg), c2, buffer, bkey)
        } else {
            (Seq::empty(), group_end(l2, s.c2 + 1, key2, cfg), s.buffer, s.buffer_key)
        };
        let c1 = s.c1 + 1;
        let keep = c1 < l1.len() ==> bkey == Some(key_at(l1, c1, cfg, true));
        (out, warns, JoinState {
            c1: c1,
            c2: c2,
            prev1: Some(key1),
            prev2: Some(key2),
            buffer: if keep { buffer } else { Seq::empty() },
            buffer_key: if keep { bkey } else { None },
        })
    }
}

pub proof fn lemma_group_end_bounds(l2: Seq<Seq<char>>, j: int, key: Seq<char>, cfg: JoinCfg)
    requires
        0 <= j <= l2.len(),
    ensures
        j <= group_end(l2, j, key, cfg) <= l2.len(),
    decreases l2.len() - j,
{
    if j < l2.len() && key_at(l2, j, cfg, false) == key {
        lemma_group_end_bounds(l2, j + 1, key, cfg);
    }
}

/// Whether the state is one the merge can be in.
pub open spec fn state_ok(l1: Seq<Seq<char>>, l2: Seq<Seq<char>>, s: JoinState) -> bool {
    0 <= s.c1 <= l1.len() && 0 <= s.c2 <= l2.len()
}

pub proof fn lemma_step_advances(l1: Seq<Seq<char>>, l2: Seq<Seq<char>>, cfg: JoinCfg, s: JoinState)
    requires
        state_ok(l1, l2, s),
        s.c1 < l1.len() || s.c2 < l2.len(),
    ensures
        state_ok(l1, l2, join_step(l1, l2, cfg, s).2),
        join_step(l1, l2, cfg, s).2.c1 + join_step(l1, l2, cfg, s).2.c2 > s.c1 + s.c2,
        join_step(l1, l2, cfg, s).2.c1 >= s.c1,
        join_step(l1, l2, cfg, s).2.c2 >= s.c2,
{
    if 0 <= s.c2 < l2.len() {
        lemma_group_end_bounds(l2, s.c2 + 1, key_at(l2, s.c2, cfg, false), cfg);
    }
}

/// The lines printed and the warnings from the state on, until both files
/// are used up.
pub open spec fn join_from(l1: Seq<Seq<char>>, l2: Seq<Seq<char>>, cfg: JoinCfg, s: JoinState) -> (Seq<Seq<char>>, Seq<Seq<char>>)
    decreases l1.len() + l2.len() - s.c1 - s.c2,
{
    if !state_ok(l1, l2, s) || (s.c1 >= l1.len() && s.c2 >= l2.len()) {
        (Seq::empty(), Seq::empty())
    } else {
        let (o, w, s2) = join_step(l1, l2, cfg, s);
        proof {
            lemma_step_advances(l1, l2, cfg, s);
        }
        let rest = join_from(l1, l2, cfg, s2);
        (o + rest.0, w + rest.1)
    }
}

/// What `join` prints for two files of lines, and the warnings: with
/// `--header` the pair of first lines, then the merge of the files by
/// their join fields.
pub open spec fn join_lines_spec(l1: Seq<Seq<char>>, l2: Seq<Seq<char>>, cfg: JoinCfg) -> (Seq<Seq<char>>, Seq<Seq<char>>) {
    let start = if cfg.header {
        JoinState { c1: if l1.len() > 0 { 1 } else { 0 }, c2: if l2.len() > 0 { 1 } else { 0 },
            prev1: None, prev2: None, buffer: Seq::empty(), buffer_key: None }
    } else {
        JoinState { c1: 0, c2: 0, prev1: None, prev2: None, buffer: Seq::empty(), buffer_key: None }
    };
    let head = if cfg.header && (l1.len() > 0 || l2.len() > 0) {
        seq![joined(pair_parts(fields_at(l1, 0, cfg), fields_at(l2, 0, cfg), cfg.format, cfg.field1, cfg.field2, cfg.empty), cfg.out_sep)]
    } else {
        Seq::empty()
    };
    let rest = join_from(l1, l2, cfg, start);
    (head + rest.0, rest.1)
}

pub open spec fn opt_text(o: Option<String>) -> Option<Seq<char>> {
    match o {
        Some(x) => Some(x@),
        None => None,
    }
}

pub open spec fn buffer_view(b: Seq<Vec<String>>) -> Seq<Seq<Seq<char>>> {
    b.map_values(|f: Vec<String>| strings_view(f@))
}

/// Where the merge stands, as the program holds it.
pub struct MergeState {
    pub c1: usize,
    pub c2: usize,
    pub prev1: Option<String>,
    pub prev2: Option<String>,
    pub buffer: Vec<Vec<String>>,
    pub buffer_key: Option<String>,
}

impl View for MergeState {
    type V = JoinState;

    open spec fn view(&self) -> JoinState {
        JoinState {
            c1: self.c1 as int,
            c2: self.c2 as int,
            prev1: opt_text(self.prev1),
            prev2: opt_text(self.prev2),
            buffer: buffer_view(self.buffer@),
            buffer_key: opt_text(self.buffer_key),
        }
    }
}

/// The fields of line `k`, or none past the end.
fn fields_at_exec(lines: &[String], k: usize, config: &Config) -> (r: Vec<String>)
    ensures
        strings_view(r@) == fields_at(strings_view(lines@), k as int, cfg_of(config)),
{
    if k < lines.len() {
        split_fields(lines[k].as_str(), config.input_separator)
    } else {
        let r = Vec::new();
        proof {
            assert(strings_view(r@) =~= Seq::<Seq<char>>::empty());
        }
        r
    }
}

/// The key of line `k` of file 1 (`first`) or 2.
fn key_at_exec(lines: &[String], k: usize, config: &Config, first: bool) -> (r: String)
    ensures
        r@ == key_at(strings_view(lines@), k as int, cfg_of(config), first),
{
    if k < lines.len() {
        let f = fields_at_exec(lines, k, config);
        get_join_key(f.as_slice(), if first { config.field1 } else { config.field2 }, config.ignore_case)
    } else {
        String::new()
    }
}

/// The first line of file 2 at or after `j` whose key differs from `key`.
fn group_end_exec(l2: &[String], j: usize, key: &String, config: &Config) -> (r: usize)
    requires
        j <= l2.len(),
    ensures
        r as int == group_end(strings_view(l2@), j as int, key@, cfg_of(config)),
{
    let mut k = j;
    while k < l2.len()
        invariant
            j <= k <= l2.len(),
            group_end(strings_view(l2@), j as int, key@, cfg_of(config))
                == group_end(strings_view(l2@), k as int, key@, cfg_of(config)),
        decreases l2.len() - k,
    {
        let kk = key_at_exec(l2, k, config, false);
        if !crate::text::str_eq(kk.as_str(), key.as_str()) {
            return k;
        }
        k += 1;
    }
    k
}

/// Whether `v` holds `n`.
fn holds(v: &Vec<usize>, n: usize) -> (r: bool)
    ensures
        r == v@.contains(n),
{
    let mut i: usize = 0;
    while i < v.len()
        invariant
            i <= v.len(),
            forall|j: int| 0 <= j < i ==> v@[j] != n,
        decreases v.len() - i,
    {
        if v[i] == n {
            return true;
        }
        i += 1;
    }
    false
}

/// Whether lines of file `n` without a partner are printed.
fn shows_unpaired_exec(config: &Config, n: usize) -> (r: bool)
    ensures
        r == shows_unpaired(cfg_of(config), n),
{
    holds(&config.only_unpaired, n) || (holds(&config.print_unpaired, n) && config.only_unpaired.len() == 0)
}

/// The warning for a line out of order.
fn order_warning_text(file_num: u64, line: &str) -> (r: String)
    ensures
        r@ == order_warning(file_num as nat, line@),
{
    let mut r = String::from_str("join: ファイル");
    let d = crate::text::decimal_string(file_num);
    r.append(d.as_str());
    r.append("がソートされていません: ");
    let v = chars_of(line);
    let t = trim_white_chars(&v);
    crate::text::push_chars(&mut r, &t);
    r
}

/// The lines of file 2 from `c2` that share its key, as fields, and the
/// line after them.
fn fill_buffer(l2: &[String], c2: usize, key2: &String, config: &Config) -> (r: (Vec<Vec<String>>, usize))
    requires
        c2 < l2.len(),
        key2@ == key_at(strings_view(l2@), c2 as int, cfg_of(config), false),
    ensures
        r.1 as int == group_end(strings_view(l2@), c2 + 1, key2@, cfg_of(config)),
        buffer_view(r.0@) == Seq::new((r.1 - c2) as nat, |k: int| fields_at(strings_view(l2@), c2 + k, cfg_of(config))),
{
    let end = group_end_exec(l2, c2 + 1, key2, config);
    proof {
        lemma_group_end_bounds(strings_view(l2@), c2 + 1, key2@, cfg_of(config));
    }
    let mut buf: Vec<Vec<String>> = Vec::new();
    let mut k = c2;
    while k < end
        invariant
            c2 <= k <= end,
            end <= l2.len(),
            buffer_view(buf@) == Seq::new((k - c2) as nat, |j: int| fields_at(strings_view(l2@), c2 + j, cfg_of(config))),
        decreases end - k,
    {
        let f = fields_at_exec(l2, k, config);
        let ghost before = buffer_view(buf@);
        buf.push(f);
        proof {
            assert(buffer_view(buf@) =~= before.push(strings_view(f@)));
            assert(buffer_view(buf@) =~= Seq::new((k + 1 - c2) as nat, |j: int| fields_at(strings_view(l2@), c2 + j, cfg_of(config))));
        }
        k += 1;
    }
    (buf, end)
}

/// The lines printed for each kept line of file 2 with a line of file 1.
fn pairs_exec(f1: &Vec<String>, buffer: &Vec<Vec<String>>, config: &Config, out: &mut Vec<String>)
    requires
        config.field1 >= 1,
        config.field2 >= 1,
    ensures
        strings_view(final(out)@) == strings_view(old(out)@) + pairs_text(strings_view(f1@), buffer_view(buffer@), cfg_of(config)),
{
    let ghost want = pairs_text(strings_view(f1@), buffer_view(buffer@), cfg_of(config));
    let ghost start = strings_view(out@);
    let mut k: usize = 0;
    while k < buffer.len()
        invariant
            k <= buffer.len(),
            config.field1 >= 1,
            config.field2 >= 1,
            want == pairs_text(strings_view(f1@), buffer_view(buffer@), cfg_of(config)),
            strings_view(out@) == start + want.take(k as int),
        decreases buffer.len() - k,
    {
        let line = format_output(f1.as_slice(), buffer[k].as_slice(), config);
        let ghost before = strings_view(out@);
        out.push(line);
        proof {
            assert(strings_view(out@) =~= before.push(line@));
            assert(want.take(k + 1) =~= want.take(k as int).push(want[k as int]));
        }
        k += 1;
    }
    proof {
        assert(want.take(buffer.len() as int) =~= want);
    }
}

/// One step of the merge: appends the lines printed and the warnings, and
/// moves the state on.
#[verifier::rlimit(30)]
fn join_step_exec(l1: &[String], l2: &[String], config: &Config, st: &mut MergeState, out: &mut Vec<String>, warns: &mut Vec<String>)
    requires
        config.field1 >= 1,
        config.field2 >= 1,
        state_ok(strings_view(l1@), strings_view(l2@), old(st)@),
        old(st).c1 < l1.len() || old(st).c2 < l2.len(),
    ensures
        ({
            let (o, w, s2) = join_step(strings_view(l1@), strings_view(l2@), cfg_of(config), old(st)@);
            &&& strings_view(final(out)@) == strings_view(old(out)@) + o
            &&& strings_view(final(warns)@) == strings_view(old(warns)@) + w
            &&& final(st)@ == s2
        }),
{
    let ghost sl1 = strings_view(l1@);
    let ghost sl2 = strings_view(l2@);
    let ghost cfg = cfg_of(config);
    let ghost s0 = st@;
    let has1 = st.c1 < l1.len();
    let has2 = st.c2 < l2.len();
    let f1 = fields_at_exec(l1, st.c1, config);
    let f2 = fields_at_exec(l2, st.c2, config);
    let key1 = key_at_exec(l1, st.c1, config, true);
    let key2 = key_at_exec(l2, st.c2, config, false);
    let check = config.check_order && !config.nocheck_order;
    let ghost w0 = strings_view(warns@);
    match &st.prev1 {
        Some(p) => {
            if check && has1 && text_less_exec(&chars_of(key1.as_str()), &chars_of(p.as_str())) {
                let w = order_warning_text(1, l1[st.c1].as_str());
                warns.push(w);
            }
        },
        None => {},
    }
    match &st.prev2 {
        Some(p) => {
            if check && has2 && text_less_exec(&chars_of(key2.as_str()), &chars_of(p.as_str())) {
                let w = order_warning_text(2, l2[st.c2].as_str());
                warns.push(w);
            }
        },
        None => {},
    }
    proof {
        let warn1 = match s0.prev1 {
            Some(p) => if cfg.check && has1 && text_less(key1@, p) { seq![order_warning(1, sl1[s0.c1])] } else { Seq::<Seq<char>>::empty() },
            None => Seq::<Seq<char>>::empty(),
        };
        let warn2 = match s0.prev2 {
            Some(p) => if cfg.check && has2 && text_less(key2@, p) { seq![order_warning(2, sl2[s0.c2])] } else { Seq::<Seq<char>>::empty() },
            None => Seq::<Seq<char>>::empty(),
        };
        assert(strings_view(warns@) =~= w0 + (warn1 + warn2));
    }
    let ghost o0 = strings_view(out@);
    let k1 = chars_of(key1.as_str());
    let k2 = chars_of(key2.as_str());
    if !has1 || (has2 && text_less_exec(&k2, &k1)) {
        if shows_unpaired_exec(config, 2) {
            let line = format_unpaired(f2.as_slice(), 2, config);
            out.push(line);
            proof {
                assert(strings_view(out@) =~= o0 + seq![line@]);
            }
        } else {
            proof {
                assert(strings_view(out@) =~= o0 + Seq::<Seq<char>>::empty());
            }
        }
        st.c2 = st.c2 + 1;
        st.prev2 = Some(key2);
    } else if !has2 || text_less_exec(&k1, &k2) {
        if shows_unpaired_exec(config, 1) {
            let line = format_unpaired(f1.as_slice(), 1, config);
            out.push(line);
            proof {
                assert(strings_view(out@) =~= o0 + seq![line@]);
            }
        } else {
            proof {
                assert(strings_view(out@) =~= o0 + Seq::<Seq<char>>::empty());
            }
        }
        st.c1 = st.c1 + 1;
        st.prev1 = Some(key1);
    } else {
        proof {
            lemma_text_less_total(k1@, k2@);
            assert(k1@ == k2@);
        }
        equal_keys_step(l1, l2, config, st, out, &f1, key1, key2);
    }
}

/// Of two texts, one sorts first unless they are equal.
pub proof fn lemma_text_less_total(a: Seq<char>, b: Seq<char>)
    ensures
        a == b || text_less(a, b) || text_less(b, a),
    decreases a.len(),
{
    if a.len() > 0 && b.len() > 0 && a[0] == b[0] {
        lemma_text_less_total(a.drop_first(), b.drop_first());
        if a.drop_first() == b.drop_first() {
            assert(a =~= seq![a[0]] + a.drop_first());
            assert(b =~= seq![b[0]] + b.drop_first());
        }
    } else if a.len() > 0 && b.len() > 0 {
        assert((a[0] as int) != (b[0] as int));
    }
}

/// Whether an optional text is the text `t`.
fn opt_is(o: &Option<String>, t: &String) -> (r: bool)
    ensures
        r == (opt_text(*o) == Some(t@)),
{
    match o {
        Some(x) => crate::text::str_eq(x.as_str(), t.as_str()),
        None => false,
    }
}

/// The step of the merge where the current lines share their key.
#[verifier::rlimit(30)]
fn equal_keys_step(l1: &[String], l2: &[String], config: &Config, st: &mut MergeState, out: &mut Vec<String>,
    f1: &Vec<String>, key1: String, key2: String)
    requires
        config.field1 >= 1,
        config.field2 >= 1,
        old(st).c1 < l1.len(),
        old(st).c2 < l2.len(),
        strings_view(f1@) == fields_at(strings_view(l1@), old(st).c1 as int, cfg_of(config)),
        key1@ == key_at(strings_view(l1@), old(st).c1 as int, cfg_of(config), true),
        key2@ == key_at(strings_view(l2@), old(st).c2 as int, cfg_of(config), false),
        key1@ == key2@,
    ensures
        ({
            let sl1 = strings_view(l1@);
            let sl2 = strings_view(l2@);
            let cfg = cfg_of(config);
            let s = old(st)@;
            let (o, c2, buffer, bkey) = if cfg.only_unpaired.len() == 0 {
                let (buffer, bkey, c2) = if s.buffer_key != Some(key2@) {
                    let end = group_end(sl2, s.c2 + 1, key2@, cfg);
                    (Seq::new((end - s.c2) as nat, |k: int| fields_at(sl2, s.c2 + k, cfg)), Some(key2@), end)
                } else {
                    (s.buffer, s.buffer_key, s.c2)
                };
                (pairs_text(strings_view(f1@), buffer, cfg), c2, buffer, bkey)
            } else {
                (Seq::empty(), group_end(sl2, s.c2 + 1, key2@, cfg), s.buffer, s.buffer_key)
            };
            let c1 = s.c1 + 1;
            let keep = c1 < sl1.len() ==> bkey == Some(key_at(sl1, c1, cfg, true));
            &&& strings_view(final(out)@) == strings_view(old(out)@) + o
            &&& final(st)@ == (JoinState {
                c1: c1,
                c2: c2,
                prev1: Some(key1@),
                prev2: Some(key2@),
                buffer: if keep { buffer } else { Seq::empty() },
                buffer_key: if keep { bkey } else { None },
            })
        }),
{
    if config.only_unpaired.len() == 0 {
        if !opt_is(&st.buffer_key, &key2) {
            let (buf, end) = fill_buffer(l2, st.c2, &key2, config);
            st.buffer = buf;
            st.buffer_key = Some(key2.clone());
            st.c2 = end;
        }
        pairs_exec(f1, &st.buffer, config, out);
    } else {
        proof {
            assert(strings_view(out@) =~= strings_view(old(out)@) + Seq::<Seq<char>>::empty());
        }
        st.c2 = group_end_exec(l2, st.c2 + 1, &key2, config);
    }
    st.prev1 = Some(key1);
    st.prev2 = Some(key2);
    st.c1 = st.c1 + 1;
    if st.c1 < l1.len() {
        let nk = key_at_exec(l1, st.c1, config, true);
        if !opt_is(&st.buffer_key, &nk) {
            st.buffer = Vec::new();
            st.buffer_key = None;
            proof {
                assert(buffer_view(st.buffer@) =~= Seq::<Seq<Seq<char>>>::empty());
            }
        }
    }
}

/// What `join` prints for two files given as their lines (each may still
/// end in its terminator), and the warnings on unsorted input: exactly
/// `join_lines_spec`. A field number 0 makes `join` fail on lines that
/// have fields, so both join fields count from 1 here.
pub fn join_lines(lines1: &[String], lines2: &[String], config: &Config) -> (r: (Vec<String>, Vec<String>))
    requires
        config.field1 >= 1,
        config.field2 >= 1,
    ensures
        strings_view(r.0@) == join_lines_spec(strings_view(lines1@), strings_view(lines2@), cfg_of(config)).0,
        strings_view(r.1@) == join_lines_spec(strings_view(lines1@), strings_view(lines2@), cfg_of(config)).1,
{
    let ghost sl1 = strings_view(lines1@);
    let ghost sl2 = strings_view(lines2@);
    let ghost cfg = cfg_of(config);
    let mut out: Vec<String> = Vec::new();
    let mut warns: Vec<String> = Vec::new();
    let mut c1: usize = 0;
    let mut c2: usize = 0;
    if config.header {
        if lines1.len() > 0 || lines2.len() > 0 {
            let f1 = fields_at_exec(lines1, 0, config);
            let f2 = fields_at_exec(lines2, 0, config);
            let line = format_output(f1.as_slice(), f2.as_slice(), config);
            out.push(line);
        }
        if lines1.len() > 0 {
            c1 = 1;
        }
        if lines2.len() > 0 {
            c2 = 1;
        }
    }
    let mut st = MergeState { c1: c1, c2: c2, prev1: None, prev2: None, buffer: Vec::new(), buffer_key: None };
    let ghost s0 = st@;
    let ghost o0 = strings_view(out@);
    proof {
        assert(s0.buffer =~= Seq::<Seq<Seq<char>>>::empty());
        assert(strings_view(warns@) =~= Seq::<Seq<char>>::empty());
        assert(o0 =~= join_lines_spec(sl1, sl2, cfg).0.take(o0.len() as int)) by {
            assert(o0 =~= (if cfg.header && (sl1.len() > 0 || sl2.len() > 0) {
                seq![joined(pair_parts(fields_at(sl1, 0, cfg), fields_at(sl2, 0, cfg), cfg.format, cfg.field1, cfg.field2, cfg.empty), cfg.out_sep)]
            } else {
                Seq::empty()
            }));
        }
    }
    while st.c1 < lines1.len() || st.c2 < lines2.len()
        invariant
            config.field1 >= 1,
            config.field2 >= 1,
            sl1 == strings_view(lines1@),
            sl2 == strings_view(lines2@),
            cfg == cfg_of(config),
            state_ok(sl1, sl2, st@),
            o0 + join_from(sl1, sl2, cfg, s0).0 == strings_view(out@) + join_from(sl1, sl2, cfg, st@).0,
            join_from(sl1, sl2, cfg, s0).1 == strings_view(warns@) + join_from(sl1, sl2, cfg, st@).1,
        decreases lines1.len() + lines2.len() - st.c1 - st.c2,
    {
        let ghost before = st@;
        let ghost ob = strings_view(out@);
        let ghost wb = strings_view(warns@);
        proof {
            lemma_step_advances(sl1, sl2, cfg, before);
        }
        join_step_exec(lines1, lines2, config, &mut st, &mut out, &mut warns);
        proof {
            let (o, w, s2) = join_step(sl1, sl2, cfg, before);
            let rest = join_from(sl1, sl2, cfg, s2);
            assert(join_from(sl1, sl2, cfg, before) == (o + rest.0, w + rest.1));
            assert(ob + (o + rest.0) =~= (ob + o) + rest.0);
            assert(wb + (w + rest.1) =~= (wb + w) + rest.1);
        }
    }
    proof {
        assert(join_from(sl1, sl2, cfg, st@).0 =~= Seq::<Seq<char>>::empty());
        assert(strings_view(out@) + Seq::<Seq<char>>::empty() =~= strings_view(out@));
        assert(strings_view(warns@) + Seq::<Seq<char>>::empty() =~= strings_view(warns@));
    }
    (out, warns)
}

} // verus!
