//! The library side of `patch`: the three formats of a patch it reads, the
//! hunks they hold, and how a hunk is found and applied in a file.
use vstd::prelude::*;
use crate::text::{chars_of, string_of, slice_chars, split_on, push_pieces, parse_usize, parse_int_spec, concat};
use crate::find::expression::strings_view;
use crate::join::{trim_white, trim_white_chars, joined, join_strings};

pub mod unified;
pub mod context;
pub mod normal;
pub mod apply;

verus! {

/// One line of a hunk.
#[derive(Debug, Clone)]
pub enum HunkLine {
    Context(String),
    Add(String),
    Remove(String),
}

/// A line of a hunk as a value.
pub enum LineView {
    Context(Seq<char>),
    Add(Seq<char>),
    Remove(Seq<char>),
}

impl View for HunkLine {
    type V = LineView;

    open spec fn view(&self) -> LineView {
        match self {
            HunkLine::Context(s) => LineView::Context(s@),
            HunkLine::Add(s) => LineView::Add(s@),
            HunkLine::Remove(s) => LineView::Remove(s@),
        }
    }
}

/// A hunk: where it stands in the old and the new file, and its lines.
#[derive(Debug, Clone)]
pub struct Hunk {
    pub old_start: usize,
    pub old_count: usize,
    pub new_start: usize,
    pub new_count: usize,
    pub lines: Vec<HunkLine>,
}

/// A hunk as a value.
pub struct HunkView {
    pub old_start: usize,
    pub old_count: usize,
    pub new_start: usize,
    pub new_count: usize,
    pub lines: Seq<LineView>,
}

pub open spec fn lines_view(v: Seq<HunkLine>) -> Seq<LineView> {
    v.map_values(|l: HunkLine| l@)
}

impl View for Hunk {
    type V = HunkView;

    open spec fn view(&self) -> HunkView {
        HunkView {
            old_start: self.old_start,
            old_count: self.old_count,
            new_start: self.new_start,
            new_count: self.new_count,
            lines: lines_view(self.lines@),
        }
    }
}

/// The hunks of a patch for one file, with the names it gives.
#[derive(Debug)]
pub struct PatchFile {
    pub old_file: String,
    pub new_file: String,
    pub hunks: Vec<Hunk>,
}

/// A patch for one file as a value.
pub struct PatchView {
    pub old_file: Seq<char>,
    pub new_file: Seq<char>,
    pub hunks: Seq<HunkView>,
}

pub open spec fn hunks_view(v: Seq<Hunk>) -> Seq<HunkView> {
    v.map_values(|h: Hunk| h@)
}

impl View for PatchFile {
    type V = PatchView;

    open spec fn view(&self) -> PatchView {
        PatchView { old_file: self.old_file@, new_file: self.new_file@, hunks: hunks_view(self.hunks@) }
    }
}

pub open spec fn patches_view(v: Seq<PatchFile>) -> Seq<PatchView> {
    v.map_values(|p: PatchFile| p@)
}

/// Appends a line to a hunk.
pub fn push_hunk_line(h: &mut Hunk, l: HunkLine)
    ensures
        final(h)@ == (HunkView { lines: old(h)@.lines.push(l@), ..old(h)@ }),
{
    let ghost before = h.lines@;
    h.lines.push(l);
    proof {
        assert(lines_view(h.lines@) =~= lines_view(before).push(l@));
    }
}

/// Appends a hunk to a patch.
pub fn push_hunk(p: &mut PatchFile, h: Hunk)
    ensures
        final(p)@ == (PatchView { hunks: old(p)@.hunks.push(h@), ..old(p)@ }),
{
    let ghost before = p.hunks@;
    p.hunks.push(h);
    proof {
        assert(hunks_view(p.hunks@) =~= hunks_view(before).push(h@));
    }
}

/// Appends a patch to the list.
pub fn push_patch(v: &mut Vec<PatchFile>, p: PatchFile)
    ensures
        patches_view(final(v)@) == patches_view(old(v)@).push(p@),
{
    let ghost before = v@;
    v.push(p);
    proof {
        assert(patches_view(v@) =~= patches_view(before).push(p@));
    }
}

/// The pieces of `s` between newlines, without the last one when it is
/// empty.
pub open spec fn piece_lines(ps: Seq<Seq<char>>) -> Seq<Seq<char>> {
    if ps.len() > 0 && ps.last().len() == 0 {
        ps.drop_last()
    } else {
        ps
    }
}

/// `p` without a carriage return at its end.
pub open spec fn drop_cr(p: Seq<char>) -> Seq<char> {
    if p.len() > 0 && p.last() == '\r' {
        p.drop_last()
    } else {
        p
    }
}

/// The lines of a text (`str::lines`): split at each newline, a carriage
/// return before a newline dropped, and no line after a final newline.
pub open spec fn lines_of(s: Seq<char>) -> Seq<Seq<char>> {
    let ps = split_on(s, '\n');
    let body = Seq::new((ps.len() - 1) as nat, |k: int| drop_cr(ps[k]));
    if ps.len() == 0 {
        Seq::empty()
    } else if ps.last().len() == 0 {
        body
    } else {
        body.push(ps.last())
    }
}

/// The lines of a text.
pub fn content_lines(s: &str) -> (r: Vec<String>)
    ensures
        strings_view(r@) == lines_of(s@),
{
    let mut ps: Vec<String> = Vec::new();
    push_pieces(&mut ps, s, '\n');
    let ghost sp = strings_view(ps@);
    proof {
        assert(sp =~= split_on(s@, '\n'));
    }
    let mut r: Vec<String> = Vec::new();
    if ps.len() == 0 {
        proof {
            assert(strings_view(r@) =~= lines_of(s@));
        }
        return r;
    }
    let n = ps.len() - 1;
    let mut k: usize = 0;
    while k < n
        invariant
            k <= n,
            n + 1 == ps.len(),
            sp == strings_view(ps@),
            strings_view(r@) == Seq::new(k as nat, |j: int| drop_cr(sp[j])),
        decreases n - k,
    {
        let v = chars_of(ps[k].as_str());
        let line = if v.len() > 0 && v[v.len() - 1] == '\r' {
            string_of(&slice_chars(&v, 0, v.len() - 1))
        } else {
            ps[k].clone()
        };
        proof {
            assert(v@ == sp[k as int]);
            if v.len() > 0 && v@[v.len() - 1] == '\r' {
                assert(v@.subrange(0, v.len() - 1) =~= v@.drop_last());
            }
        }
        let ghost before = strings_view(r@);
        r.push(line);
        proof {
            assert(line@ == drop_cr(sp[k as int]));
            assert(strings_view(r@) =~= before.push(line@));
            assert(strings_view(r@) =~= Seq::new((k + 1) as nat, |j: int| drop_cr(sp[j])));
        }
        k += 1;
    }
    let lastv = chars_of(ps[n].as_str());
    if lastv.len() > 0 {
        let last = ps[n].clone();
        let ghost before = strings_view(r@);
        r.push(last);
        proof {
            assert(strings_view(r@) =~= before.push(sp.last()));
        }
    }
    r
}

/// `s` without the characters `c` it begins with.
pub open spec fn trim_start_char(s: Seq<char>, c: char) -> Seq<char>
    decreases s.len(),
{
    if s.len() > 0 && s[0] == c {
        trim_start_char(s.drop_first(), c)
    } else {
        s
    }
}

/// `s` without the characters `c` it ends with.
pub open spec fn trim_end_char(s: Seq<char>, c: char) -> Seq<char>
    decreases s.len(),
{
    if s.len() > 0 && s.last() == c {
        trim_end_char(s.drop_last(), c)
    } else {
        s
    }
}

/// `v` without the characters `c` it begins with.
pub fn trim_start_chars(v: &[char], c: char) -> (r: Vec<char>)
    ensures
        r@ == trim_start_char(v@, c),
{
    let mut i: usize = 0;
    proof {
        assert(v@.skip(0) =~= v@);
    }
    while i < v.len() && v[i] == c
        invariant
            i <= v.len(),
            trim_start_char(v@.skip(i as int), c) == trim_start_char(v@, c),
        decreases v.len() - i,
    {
        proof {
            assert(v@.skip(i as int).drop_first() =~= v@.skip(i + 1));
        }
        i += 1;
    }
    let r = slice_chars(v, i, v.len());
    proof {
        assert(r@ =~= v@.skip(i as int));
    }
    r
}

/// `v` without the characters `c` it ends with.
pub fn trim_end_chars(v: &[char], c: char) -> (r: Vec<char>)
    ensures
        r@ == trim_end_char(v@, c),
{
    let mut e: usize = v.len();
    proof {
        assert(v@.take(v.len() as int) =~= v@);
    }
    while e > 0 && v[e - 1] == c
        invariant
            e <= v.len(),
            trim_end_char(v@.take(e as int), c) == trim_end_char(v@, c),
        decreases e,
    {
        proof {
            assert(v@.take(e as int).drop_last() =~= v@.take(e - 1));
        }
        e -= 1;
    }
    let r = slice_chars(v, 0, e);
    proof {
        assert(r@ =~= v@.take(e as int));
    }
    r
}

/// Where the first `c` of `s` at or after `i` stands, or the length.
pub open spec fn stop_at(s: Seq<char>, c: char, i: int) -> int
    decreases s.len() - i,
{
    if i < 0 || i >= s.len() {
        s.len() as int
    } else if s[i] == c {
        i
    } else {
        stop_at(s, c, i + 1)
    }
}

/// The part of `s` before its first `c` (the first piece of `str::split`).
pub open spec fn before_char(s: Seq<char>, c: char) -> Seq<char> {
    s.take(stop_at(s, c, 0))
}

/// A file name in a `---`, `+++` or `***` line, from what follows the
/// marker: trimmed, cut at a tab, trimmed again.
pub open spec fn header_name(rest: Seq<char>) -> Seq<char> {
    trim_white(before_char(trim_white(rest), '\t'))
}

/// A file name in a header line.
pub fn header_name_exec(rest: &[char]) -> (r: Vec<char>)
    ensures
        r@ == header_name(rest@),
{
    let t = trim_white_chars(rest);
    let mut i: usize = 0;
    while i < t.len() && t[i] != '\t'
        invariant
            i <= t.len(),
            stop_at(t@, '\t', 0) == stop_at(t@, '\t', i as int),
        decreases t.len() - i,
    {
        i += 1;
    }
    let head = slice_chars(&t, 0, i);
    proof {
        assert(head@ =~= before_char(t@, '\t'));
    }
    trim_white_chars(&head)
}

/// `s` with each backslash made a slash.
pub open spec fn slashed(s: Seq<char>) -> Seq<char> {
    s.map_values(|c: char| if c == '\\' { '/' } else { c })
}

/// A path without its first `level` components (split at `/` or `\`,
/// joined again with `/`); when it has no more than `level`, its last one.
pub open spec fn strip_path_spec(path: Seq<char>, level: nat) -> Seq<char> {
    let cs = split_on(slashed(path), '/');
    if level == 0 {
        path
    } else if level >= cs.len() {
        if cs.len() == 0 { path } else { cs.last() }
    } else {
        joined(cs.skip(level as int), "/"@)
    }
}

/// A path without its first `level` components.
pub fn strip_path(path: &str, level: usize) -> (r: String)
    ensures
        r@ == strip_path_spec(path@, level as nat),
{
    if level == 0 {
        return string_of(&chars_of(path));
    }
    let v = chars_of(path);
    let mut w: Vec<char> = Vec::new();
    let mut i: usize = 0;
    while i < v.len()
        invariant
            i <= v.len(),
            w@ == slashed(v@.take(i as int)),
        decreases v.len() - i,
    {
        w.push(if v[i] == '\\' { '/' } else { v[i] });
        proof {
            assert(slashed(v@.take(i + 1)) =~= slashed(v@.take(i as int)).push(if v@[i as int] == '\\' { '/' } else { v@[i as int] }));
        }
        i += 1;
    }
    proof {
        assert(v@.take(v.len() as int) =~= v@);
    }
    let ws = string_of(&w);
    let mut cs: Vec<String> = Vec::new();
    push_pieces(&mut cs, ws.as_str(), '/');
    let ghost scs = strings_view(cs@);
    proof {
        assert(scs =~= split_on(slashed(path@), '/'));
    }
    if level >= cs.len() {
        if cs.len() == 0 {
            string_of(&v)
        } else {
            cs[cs.len() - 1].clone()
        }
    } else {
        let rest = slice_strings(&cs, level);
        join_strings(&rest, "/")
    }
}

/// The strings of `v` from `from` on.
pub fn slice_strings(v: &Vec<String>, from: usize) -> (r: Vec<String>)
    requires
        from <= v.len(),
    ensures
        strings_view(r@) == strings_view(v@).skip(from as int),
{
    let ghost sv = strings_view(v@);
    let mut r: Vec<String> = Vec::new();
    let mut j = from;
    proof {
        assert(strings_view(r@) =~= sv.subrange(from as int, from as int));
    }
    while j < v.len()
        invariant
            from <= j <= v.len(),
            sv == strings_view(v@),
            strings_view(r@) == sv.subrange(from as int, j as int),
        decreases v.len() - j,
    {
        let ghost before = strings_view(r@);
        let x = v[j].clone();
        r.push(x);
        proof {
            assert(x@ == sv[j as int]);
            assert(strings_view(r@) =~= before.push(x@));
            assert(strings_view(r@) =~= sv.subrange(from as int, j + 1));
        }
        j += 1;
    }
    proof {
        assert(sv.subrange(from as int, v.len() as int) =~= sv.skip(from as int));
    }
    r
}

/// A range `a,b` (or `a`): both numbers, the second being `default` when
/// there is none; any text after a second comma is not read. Either
/// number unreadable is the error `無効な範囲: s`.
pub open spec fn range_spec(s: Seq<char>, second_is_start: bool) -> Result<(usize, usize), Seq<char>> {
    let parts = split_on(s, ',');
    let err = "無効な範囲: "@ + s;
    if parts.len() == 0 {
        Err(err)
    } else {
        match parse_int_spec(parts[0], 0, usize::MAX as int) {
            None => Err(err),
            Some(a) => if parts.len() > 1 {
                match parse_int_spec(parts[1], 0, usize::MAX as int) {
                    None => Err(err),
                    Some(b) => Ok((a as usize, b as usize)),
                }
            } else {
                Ok((a as usize, if second_is_start { a as usize } else { 1usize }))
            },
        }
    }
}

/// Reads a range `a,b` or `a`; without `b` the second number is `a` when
/// `second_is_start` holds, else 1.
pub fn parse_pair(s: &str, second_is_start: bool) -> (r: Result<(usize, usize), String>)
    ensures
        match range_spec(s@, second_is_start) {
            Ok(p) => r == Ok::<(usize, usize), String>(p),
            Err(e) => r is Err && r->Err_0@ == e,
        },
{
    let mut parts: Vec<String> = Vec::new();
    push_pieces(&mut parts, s, ',');
    proof {
        assert(strings_view(parts@) =~= split_on(s@, ','));
    }
    if parts.len() == 0 {
        return Err(concat("無効な範囲: ", s));
    }
    let a = match parse_usize(&chars_of(parts[0].as_str())) {
        Some(a) => a,
        None => return Err(concat("無効な範囲: ", s)),
    };
    if parts.len() > 1 {
        match parse_usize(&chars_of(parts[1].as_str())) {
            Some(b) => Ok((a, b)),
            None => Err(concat("無効な範囲: ", s)),
        }
    } else {
        Ok((a, if second_is_start { a } else { 1 }))
    }
}

} // verus!
