//! Which format a patch is in, where a hunk fits in a file, and what the
//! file becomes when it is applied (or applied in reverse).
use vstd::prelude::*;
use crate::text::{chars_of, str_eq, chars_eq, starts_with_str, is_prefix, seq_contains, contains_text, contains_char};
use crate::find::expression::strings_view;
use crate::join::{is_white, is_white_char};
use crate::grep::lines::{TextEncoding, decoded_of};
use crate::patch::{Hunk, HunkLine, HunkView, LineView, PatchFile, PatchView, lines_view, hunks_view, lines_of,
    content_lines};

verus! {

/// The formats of a patch.
#[derive(Debug, Clone, Copy, PartialEq, Eq, Structural)]
pub enum PatchFormat {
    Unified,
    Context,
    Normal,
    Ed,
}

/// Whether `c` is one of `a`, `c`, `d`.
pub open spec fn has_command_char(s: Seq<char>) -> bool {
    s.contains('a') || s.contains('c') || s.contains('d')
}

/// The format from the lines `lines[i..]` of the patch `content`: the
/// first line that starts `---` (with a `+++` line somewhere after a
/// newline) says unified, `***` (with a `---` line) context, a digit and a
/// command letter normal; unified when none does.
pub open spec fn format_from(lines: Seq<Seq<char>>, i: int, content: Seq<char>) -> PatchFormat
    decreases lines.len() - i,
{
    if i < 0 || i >= lines.len() {
        PatchFormat::Unified
    } else {
        let line = lines[i];
        if is_prefix("---"@, line) && seq_contains(content, "\n+++"@) {
            PatchFormat::Unified
        } else if is_prefix("***"@, line) && seq_contains(content, "\n---"@) {
            PatchFormat::Context
        } else if line.len() > 0 && '0' <= line[0] <= '9' && has_command_char(line) {
            PatchFormat::Normal
        } else {
            format_from(lines, i + 1, content)
        }
    }
}

/// The format of a patch.
pub fn detect_patch_format(content: &str) -> (r: PatchFormat)
    ensures
        r == format_from(lines_of(content@), 0, content@),
{
    let lines = content_lines(content);
    let ghost sl = strings_view(lines@);
    let cv = chars_of(content);
    let unified_marker = contains_text(&cv, "\n+++");
    let context_marker = contains_text(&cv, "\n---");
    let mut i: usize = 0;
    while i < lines.len()
        invariant
            i <= lines.len(),
            sl == strings_view(lines@),
            cv@ == content@,
            unified_marker == seq_contains(content@, "\n+++"@),
            context_marker == seq_contains(content@, "\n---"@),
            format_from(lines_of(content@), 0, content@) == format_from(sl, i as int, content@),
            sl == lines_of(content@),
        decreases lines.len() - i,
    {
        let v = chars_of(lines[i].as_str());
        assert(v@ == sl[i as int]);
        if starts_with_str(&v, "---") && unified_marker {
            return PatchFormat::Unified;
        }
        if starts_with_str(&v, "***") && context_marker {
            return PatchFormat::Context;
        }
        if v.len() > 0 && '0' <= v[0] && v[0] <= '9' && (contains_char(&v, 'c') || contains_char(&v, 'a') || contains_char(&v, 'd')) {
            return PatchFormat::Normal;
        }
        i += 1;
    }
    PatchFormat::Unified
}

/// The encoding in which `patch` reads a file: UTF-16 (little endian,
/// whose decoder follows a byte order mark) after `FF FE` or `FE FF`,
/// else UTF-8.
pub open spec fn patch_encoding_of(b: Seq<u8>) -> TextEncoding {
    if b.len() >= 3 && b[0] == 0xEF && b[1] == 0xBB && b[2] == 0xBF {
        TextEncoding::Utf8
    } else if b.len() >= 2 && ((b[0] == 0xFF && b[1] == 0xFE) || (b[0] == 0xFE && b[1] == 0xFF)) {
        TextEncoding::Utf16Le
    } else {
        TextEncoding::Utf8
    }
}

/// The encoding in which `patch` reads a file.
pub fn patch_encoding(bytes: &[u8]) -> (r: TextEncoding)
    ensures
        r == patch_encoding_of(bytes@),
{
    if bytes.len() >= 3 && bytes[0] == 0xEF && bytes[1] == 0xBB && bytes[2] == 0xBF {
        TextEncoding::Utf8
    } else if bytes.len() >= 2 && ((bytes[0] == 0xFF && bytes[1] == 0xFE) || (bytes[0] == 0xFE && bytes[1] == 0xFF)) {
        TextEncoding::Utf16Le
    } else {
        TextEncoding::Utf8
    }
}

/// The text of a patch or a file read as bytes, in the encoding
/// `patch_encoding` picks.
pub fn decode_patch_text(bytes: &[u8]) -> (r: String)
    ensures
        r@ == decoded_of(patch_encoding_of(bytes@), bytes@),
{
    let enc = patch_encoding(bytes);
    crate::grep::lines::decode_in(enc, bytes)
}

/// `s` without white space at its end (`str::trim_end`).
pub open spec fn trim_end_white(s: Seq<char>) -> Seq<char>
    decreases s.len(),
{
    if s.len() > 0 && is_white(s.last()) {
        trim_end_white(s.drop_last())
    } else {
        s
    }
}

fn trim_end_white_str(s: &str) -> (r: Vec<char>)
    ensures
        r@ == trim_end_white(s@),
{
    let v = chars_of(s);
    let mut e: usize = v.len();
    proof {
        assert(v@.take(v.len() as int) =~= v@);
    }
    while e > 0 && is_white_char(v[e - 1])
        invariant
            e <= v.len(),
            trim_end_white(v@.take(e as int)) == trim_end_white(v@),
            v@ == s@,
        decreases e,
    {
        proof {
            assert(v@.take(e as int).drop_last() =~= v@.take(e - 1));
        }
        e -= 1;
    }
    let mut r: Vec<char> = Vec::new();
    let mut k: usize = 0;
    while k < e
        invariant
            k <= e <= v.len(),
            r@ == v@.take(k as int),
        decreases e - k,
    {
        r.push(v[k]);
        proof {
            assert(v@.take(k + 1) =~= v@.take(k as int).push(v@[k as int]));
        }
        k += 1;
    }
    r
}

/// A line of a hunk as it stands in the file before the hunk is applied
/// (forward: context and removed lines; in reverse: context and added).
pub open spec fn before_text(l: LineView, reverse: bool) -> Option<Seq<char>> {
    match l {
        LineView::Context(s) => Some(s),
        LineView::Remove(s) => if reverse { None } else { Some(s) },
        LineView::Add(s) => if reverse { Some(s) } else { None },
    }
}

/// A line of a hunk as it stands in the file after the hunk is applied.
pub open spec fn after_text(l: LineView, reverse: bool) -> Option<Seq<char>> {
    before_text(l, !reverse)
}

/// The lines a hunk expects in the file.
pub open spec fn before_side(lines: Seq<LineView>, reverse: bool) -> Seq<Seq<char>>
    decreases lines.len(),
{
    if lines.len() == 0 {
        Seq::empty()
    } else {
        before_side(lines.drop_last(), reverse) + match before_text(lines.last(), reverse) {
            Some(s) => seq![s],
            None => Seq::empty(),
        }
    }
}

/// The lines a hunk leaves in the file.
pub open spec fn after_side(lines: Seq<LineView>, reverse: bool) -> Seq<Seq<char>> {
    before_side(lines, !reverse)
}

/// Whether the lines `ctx` stand in `lines` from `pos` on, each compared
/// without white space at its end.
pub open spec fn matches_spec(lines: Seq<Seq<char>>, pos: int, ctx: Seq<Seq<char>>) -> bool {
    ctx.len() == 0 || (0 <= pos && pos + ctx.len() <= lines.len()
        && forall|k: int| 0 <= k < ctx.len() ==> #[trigger] trim_end_white(lines[pos + k]) == trim_end_white(ctx[k]))
}

/// The file after the hunk is put at `pos`: the lines before `pos`, the
/// hunk's lines after it, and the lines after those it expected.
pub open spec fn apply_at_spec(lines: Seq<Seq<char>>, pos: int, h: Seq<LineView>, reverse: bool) -> Seq<Seq<char>> {
    let skip = pos + before_side(h, reverse).len();
    lines.take(pos) + after_side(h, reverse) + if skip < lines.len() { lines.skip(skip) } else { Seq::empty() }
}

/// `a - b`, or 0 below it.
pub open spec fn sat_sub(a: int, b: int) -> int {
    if a >= b { a - b } else { 0 }
}

/// Where the search for a hunk's place begins and ends.
pub open spec fn search_start(target: int, fuzz: int) -> int {
    sat_sub(target, fuzz + 1)
}

pub open spec fn search_end(len: int, target: int, fuzz: int) -> int {
    if target + fuzz <= len + 1 { target + fuzz } else { len + 1 }
}

/// Whether the search for a hunk's place is one `patch` can make: it
/// stops on a window that ends before it starts, and no sum may pass the
/// machine's limit.
pub open spec fn window_ok(len: int, target: int, fuzz: int) -> bool {
    &&& fuzz + 1 <= usize::MAX
    &&& target + fuzz <= usize::MAX
    &&& len + fuzz + 2 <= usize::MAX
    &&& search_end(len, target, fuzz) >= search_start(target, fuzz)
}

/// The line a hunk says it starts at.
pub open spec fn hunk_target(h: HunkView, reverse: bool) -> int {
    if reverse { h.new_start as int } else { h.old_start as int }
}

/// The place tried at `offset` in direction `dir` (0: the hunk's own
/// line, 1: after it, 2: before it).
pub open spec fn candidate(t1: int, offset: int, dir: int) -> int {
    if dir == 0 {
        t1
    } else if dir == 1 {
        t1 + offset
    } else {
        sat_sub(t1, offset)
    }
}

/// The first place, trying offsets up to `last` and for each the three
/// directions, where the lines `ctx` stand.
pub open spec fn found_from(lines: Seq<Seq<char>>, ctx: Seq<Seq<char>>, t1: int, offset: int, dir: int, last: int) -> Option<int>
    decreases last + 1 - offset, 3 - dir,
{
    if offset < 0 || offset > last || dir < 0 {
        None
    } else if dir >= 3 {
        found_from(lines, ctx, t1, offset + 1, 0, last)
    } else {
        let pos = candidate(t1, offset, dir);
        if pos <= lines.len() && matches_spec(lines, pos, ctx) {
            Some(pos)
        } else {
            found_from(lines, ctx, t1, offset, dir + 1, last)
        }
    }
}

/// Where the hunk goes in `lines`, if it fits anywhere in the window.
pub open spec fn hunk_place(lines: Seq<Seq<char>>, h: HunkView, reverse: bool, fuzz: int) -> Option<int> {
    let target = hunk_target(h, reverse);
    found_from(lines, before_side(h.lines, reverse), sat_sub(target, 1), 0, 0,
        search_end(lines.len() as int, target, fuzz) - search_start(target, fuzz))
}

/// The file after the hunk is applied, or `None` when it fits nowhere.
pub open spec fn hunk_applied(lines: Seq<Seq<char>>, h: HunkView, reverse: bool, fuzz: int) -> Option<Seq<Seq<char>>> {
    match hunk_place(lines, h, reverse, fuzz) {
        Some(pos) => Some(apply_at_spec(lines, pos, h.lines, reverse)),
        None => None,
    }
}

/// The lines a hunk expects in the file.
fn before_lines(h: &Hunk, reverse: bool) -> (r: Vec<String>)
    ensures
        strings_view(r@) == before_side(h@.lines, reverse),
{
    let ghost hl = h@.lines;
    let mut r: Vec<String> = Vec::new();
    let mut k: usize = 0;
    proof {
        assert(hl.take(0) =~= Seq::<LineView>::empty());
    }
    while k < h.lines.len()
        invariant
            k <= h.lines.len(),
            hl == h@.lines,
            hl == lines_view(h.lines@),
            strings_view(r@) == before_side(hl.take(k as int), reverse),
        decreases h.lines.len() - k,
    {
        let ghost before = strings_view(r@);
        assert(hl[k as int] == h.lines@[k as int]@);
        match &h.lines[k] {
            HunkLine::Context(s) => r.push(s.clone()),
            HunkLine::Remove(s) => if !reverse { r.push(s.clone()) },
            HunkLine::Add(s) => if reverse { r.push(s.clone()) },
        }
        proof {
            assert(hl.take(k + 1).drop_last() =~= hl.take(k as int));
            assert(strings_view(r@) =~= before + match before_text(hl[k as int], reverse) {
                Some(s) => seq![s],
                None => Seq::empty(),
            });
        }
        k += 1;
    }
    proof {
        assert(hl.take(h.lines.len() as int) =~= hl);
    }
    r
}

/// Whether the lines `ctx` stand in `lines` from `pos` on.
pub fn matches_at(lines: &[String], pos: usize, ctx: &[String]) -> (r: bool)
    ensures
        r == matches_spec(strings_view(lines@), pos as int, strings_view(ctx@)),
{
    let ghost sl = strings_view(lines@);
    let ghost sc = strings_view(ctx@);
    if ctx.len() == 0 {
        return true;
    }
    let mut k: usize = 0;
    while k < ctx.len()
        invariant
            k <= ctx.len(),
            sl == strings_view(lines@),
            sc == strings_view(ctx@),
            pos + k <= lines.len() || k == 0,
            forall|j: int| 0 <= j < k ==> #[trigger] trim_end_white(sl[pos + j]) == trim_end_white(sc[j]),
        decreases ctx.len() - k,
    {
        if pos >= lines.len() || k >= lines.len() - pos {
            return false;
        }
        let a = trim_end_white_str(lines[pos + k].as_str());
        let b = trim_end_white_str(ctx[k].as_str());
        proof {
            assert(sl[pos + k] == lines@[pos + k]@);
            assert(sc[k as int] == ctx@[k as int]@);
        }
        if !chars_eq(&a, &b) {
            return false;
        }
        k += 1;
    }
    true
}

/// The file after the hunk is put at `pos`.
pub fn apply_at(lines: &mut Vec<String>, pos: usize, hunk: &Hunk, reverse: bool)
    requires
        pos <= old(lines).len(),
    ensures
        strings_view(final(lines)@) == apply_at_spec(strings_view(old(lines)@), pos as int, hunk@.lines, reverse),
{
    let ghost sl = strings_view(lines@);
    let mut out: Vec<String> = Vec::new();
    let mut k: usize = 0;
    while k < pos
        invariant
            k <= pos <= lines.len(),
            sl == strings_view(lines@),
            strings_view(out@) == sl.take(k as int),
        decreases pos - k,
    {
        let ghost before = strings_view(out@);
        let x = lines[k].clone();
        out.push(x);
        proof {
            assert(x@ == sl[k as int]);
            assert(strings_view(out@) =~= before.push(x@));
            assert(strings_view(out@) =~= sl.take(k + 1));
        }
        k += 1;
    }
    let after = before_lines(hunk, !reverse);
    let mut j: usize = 0;
    while j < after.len()
        invariant
            j <= after.len(),
            strings_view(out@) == sl.take(pos as int) + strings_view(after@).take(j as int),
        decreases after.len() - j,
    {
        let ghost before = strings_view(out@);
        let x = after[j].clone();
        out.push(x);
        proof {
            assert(strings_view(out@) =~= before.push(x@));
            assert(strings_view(after@).take(j + 1) =~= strings_view(after@).take(j as int).push(after@[j as int]@));
            assert(strings_view(out@) =~= sl.take(pos as int) + strings_view(after@).take(j + 1));
        }
        j += 1;
    }
    proof {
        assert(strings_view(after@).take(after.len() as int) =~= strings_view(after@));
    }
    let expected = before_lines(hunk, reverse);
    let ghost mid = strings_view(out@);
    if expected.len() < lines.len() - pos {
        let skip = pos + expected.len();
        let mut m = skip;
        while m < lines.len()
            invariant
                skip <= m <= lines.len(),
                sl == strings_view(lines@),
                strings_view(out@) == mid + sl.subrange(skip as int, m as int),
            decreases lines.len() - m,
        {
            let ghost before = strings_view(out@);
            let x = lines[m].clone();
            out.push(x);
            proof {
                assert(x@ == sl[m as int]);
                assert(strings_view(out@) =~= before.push(x@));
                assert(strings_view(out@) =~= mid + sl.subrange(skip as int, m + 1));
            }
            m += 1;
        }
        proof {
            assert(sl.subrange(skip as int, lines.len() as int) =~= sl.skip(skip as int));
        }
    } else {
        proof {
            assert(mid + Seq::<Seq<char>>::empty() =~= mid);
        }
    }
    *lines = out;
}

/// Applies a hunk (in reverse with `reverse`) where it fits, searching
/// `fuzz` lines either way from the line it names: `Ok(true)` with the
/// file changed, or `Ok(false)` with the file as it was.
pub fn apply_hunk(lines: &mut Vec<String>, hunk: &Hunk, reverse: bool, fuzz: usize) -> (r: Result<bool, String>)
    requires
        window_ok(old(lines).len() as int, hunk_target(hunk@, reverse), fuzz as int),
    ensures
        r is Ok,
        match hunk_applied(strings_view(old(lines)@), hunk@, reverse, fuzz as int) {
            Some(nl) => r == Ok::<bool, String>(true) && strings_view(final(lines)@) == nl,
            None => r == Ok::<bool, String>(false) && final(lines)@ == old(lines)@,
        },
{
    let ghost sl = strings_view(lines@);
    let target = if reverse { hunk.new_start } else { hunk.old_start };
    let search_start = if target >= fuzz + 1 { target - (fuzz + 1) } else { 0 };
    let search_end = if target + fuzz <= lines.len() + 1 { target + fuzz } else { lines.len() + 1 };
    let ctx = before_lines(hunk, reverse);
    let ghost sc = strings_view(ctx@);
    let t1 = if target >= 1 { target - 1 } else { 0 };
    let last = search_end - search_start;
    let mut offset: usize = 0;
    let ghost want = found_from(sl, sc, t1 as int, 0, 0, last as int);
    assert(want == hunk_place(sl, hunk@, reverse, fuzz as int));
    while offset <= last
        invariant
            sl == strings_view(lines@),
            sc == strings_view(ctx@),
            want == found_from(sl, sc, t1 as int, offset as int, 0, last as int),
            want == hunk_place(sl, hunk@, reverse, fuzz as int),
            hunk_applied(sl, hunk@, reverse, fuzz as int) == match want {
                Some(pos) => Some(apply_at_spec(sl, pos, hunk@.lines, reverse)),
                None => None::<Seq<Seq<char>>>,
            },
            offset <= last + 1,
            last <= lines.len() + 1,
            t1 + last + 1 <= usize::MAX,
            lines@ == old(lines)@,
            sl == strings_view(old(lines)@),
        decreases last + 1 - offset,
    {
        let mut dir: usize = 0;
        while dir < 3
            invariant
                sl == strings_view(lines@),
                sc == strings_view(ctx@),
                want == found_from(sl, sc, t1 as int, offset as int, dir as int, last as int),
                want == hunk_place(sl, hunk@, reverse, fuzz as int),
                hunk_applied(sl, hunk@, reverse, fuzz as int) == match want {
                    Some(pos) => Some(apply_at_spec(sl, pos, hunk@.lines, reverse)),
                    None => None::<Seq<Seq<char>>>,
                },
                offset <= last,
                dir <= 3,
                last <= lines.len() + 1,
                t1 + last + 1 <= usize::MAX,
                lines@ == old(lines)@,
                sl == strings_view(old(lines)@),
            decreases 3 - dir,
        {
            let pos = if dir == 0 {
                t1
            } else if dir == 1 {
                t1 + offset
            } else if t1 >= offset {
                t1 - offset
            } else {
                0
            };
            assert(pos as int == candidate(t1 as int, offset as int, dir as int));
            if pos <= lines.len() && matches_at(lines.as_slice(), pos, ctx.as_slice()) {
                assert(want == Some(pos as int));
                apply_at(lines, pos, hunk, reverse);
                return Ok(true);
            }
            dir += 1;
        }
        offset += 1;
    }
    Ok(false)
}

/// The file after the hunks are applied one after the other, and for each
/// whether it was.
pub open spec fn hunks_applied(lines: Seq<Seq<char>>, hs: Seq<HunkView>, reverse: bool, fuzz: int) -> (Seq<Seq<char>>, Seq<bool>)
    decreases hs.len(),
{
    if hs.len() == 0 {
        (lines, Seq::empty())
    } else {
        let (next, ok) = match hunk_applied(lines, hs[0], reverse, fuzz) {
            Some(nl) => (nl, true),
            None => (lines, false),
        };
        let rest = hunks_applied(next, hs.drop_first(), reverse, fuzz);
        (rest.0, seq![ok] + rest.1)
    }
}

/// Whether each hunk, in turn, can be searched for.
pub open spec fn hunks_ok(lines: Seq<Seq<char>>, hs: Seq<HunkView>, reverse: bool, fuzz: int) -> bool
    decreases hs.len(),
{
    if hs.len() == 0 {
        true
    } else {
        let next = match hunk_applied(lines, hs[0], reverse, fuzz) {
            Some(nl) => nl,
            None => lines,
        };
        window_ok(lines.len() as int, hunk_target(hs[0], reverse), fuzz) && hunks_ok(next, hs.drop_first(), reverse, fuzz)
    }
}

/// Applies the hunks of a patch one after the other: for each, whether it
/// was applied.
pub fn apply_hunks(lines: &mut Vec<String>, hunks: &[Hunk], reverse: bool, fuzz: usize) -> (r: Vec<bool>)
    requires
        hunks_ok(strings_view(old(lines)@), hunks_view(hunks@), reverse, fuzz as int),
    ensures
        strings_view(final(lines)@) == hunks_applied(strings_view(old(lines)@), hunks_view(hunks@), reverse, fuzz as int).0,
        r@ == hunks_applied(strings_view(old(lines)@), hunks_view(hunks@), reverse, fuzz as int).1,
{
    let ghost hv = hunks_view(hunks@);
    let ghost want = hunks_applied(strings_view(lines@), hv, reverse, fuzz as int);
    let mut r: Vec<bool> = Vec::new();
    let mut k: usize = 0;
    proof {
        assert(hv.skip(0) =~= hv);
        assert(Seq::<bool>::empty() + want.1 =~= want.1);
    }
    while k < hunks.len()
        invariant
            k <= hunks.len(),
            hv == hunks_view(hunks@),
            want.0 == hunks_applied(strings_view(lines@), hv.skip(k as int), reverse, fuzz as int).0,
            want.1 == r@ + hunks_applied(strings_view(lines@), hv.skip(k as int), reverse, fuzz as int).1,
            hunks_ok(strings_view(lines@), hv.skip(k as int), reverse, fuzz as int),
        decreases hunks.len() - k,
    {
        let ghost cur = strings_view(lines@);
        let ghost tail = hv.skip(k as int);
        assert(tail[0] == hunks@[k as int]@);
        assert(tail.drop_first() =~= hv.skip(k + 1));
        let ok = apply_hunk(lines, &hunks[k], reverse, fuzz);
        let done = match ok {
            Ok(b) => b,
            Err(_) => false,
        };
        r.push(done);
        proof {
            let rest = hunks_applied(strings_view(lines@), hv.skip(k + 1), reverse, fuzz as int);
            assert(hunks_applied(cur, tail, reverse, fuzz as int).1 == seq![done] + rest.1);
            assert(r@ + rest.1 =~= r@.drop_last() + (seq![done] + rest.1));
        }
        k += 1;
    }
    proof {
        assert(hv.skip(hunks.len() as int) =~= Seq::<HunkView>::empty());
        assert(r@ + Seq::<bool>::empty() =~= r@);
    }
    r
}

/// The file a patch is applied to: the one given on the command line, or
/// else the patch's new name, or else its old name; none when there is
/// none of them.
pub open spec fn target_spec(p: PatchView, input: Option<Seq<char>>) -> Option<Seq<char>> {
    match input {
        Some(f) => Some(f),
        None => if p.new_file.len() > 0 {
            Some(p.new_file)
        } else if p.old_file.len() > 0 {
            Some(p.old_file)
        } else {
            None
        },
    }
}

/// The file a patch is applied to.
pub fn target_file(patch: &PatchFile, input_file: &Option<String>) -> (r: Option<String>)
    ensures
        match target_spec(patch@, match input_file { Some(f) => Some(f@), None => None }) {
            Some(t) => r is Some && r->Some_0@ == t,
            None => r is None,
        },
{
    match input_file {
        Some(f) => Some(f.clone()),
        None => {
            let n = chars_of(patch.new_file.as_str());
            let o = chars_of(patch.old_file.as_str());
            if n.len() > 0 {
                Some(patch.new_file.clone())
            } else if o.len() > 0 {
                Some(patch.old_file.clone())
            } else {
                None
            }
        },
    }
}

/// Putting a hunk into a file at a place where the lines it expects stand
/// exactly, then taking it out again in reverse at the same place, gives
/// the file back.
pub proof fn lemma_reverse_undoes(lines: Seq<Seq<char>>, pos: int, h: Seq<LineView>)
    requires
        0 <= pos,
        pos + before_side(h, false).len() <= lines.len(),
        lines.subrange(pos, pos + before_side(h, false).len()) == before_side(h, false),
    ensures
        apply_at_spec(apply_at_spec(lines, pos, h, false), pos, h, true) == lines,
{
    let old_side = before_side(h, false);
    let new_side = before_side(h, true);
    let k = old_side.len() as int;
    let a = new_side.len() as int;
    let rest = lines.skip(pos + k);
    let once = apply_at_spec(lines, pos, h, false);
    assert(after_side(h, false) == new_side);
    assert(after_side(h, true) == before_side(h, false));
    if pos + k < lines.len() {
        assert(once == lines.take(pos) + new_side + rest);
    } else {
        assert(rest =~= Seq::<Seq<char>>::empty());
        assert(once =~= lines.take(pos) + new_side + rest);
    }
    assert(once.take(pos) =~= lines.take(pos));
    assert(once.skip(pos + a) =~= rest);
    let twice = apply_at_spec(once, pos, h, true);
    if pos + a < once.len() {
        assert(twice == once.take(pos) + old_side + once.skip(pos + a));
    } else {
        assert(rest.len() == 0);
        assert(twice =~= once.take(pos) + old_side + rest);
    }
    assert(lines =~= lines.take(pos) + lines.subrange(pos, pos + k) + rest);
}

/// The place where a hunk is put is one where the lines it expects stand
/// (each compared without white space at its end).
pub proof fn lemma_place_matches(lines: Seq<Seq<char>>, ctx: Seq<Seq<char>>, t1: int, offset: int, dir: int, last: int)
    ensures
        match found_from(lines, ctx, t1, offset, dir, last) {
            Some(pos) => pos <= lines.len() && matches_spec(lines, pos, ctx),
            None => true,
        },
    decreases last + 1 - offset, 3 - dir,
{
    if offset < 0 || offset > last || dir < 0 {
    } else if dir >= 3 {
        lemma_place_matches(lines, ctx, t1, offset + 1, 0, last);
    } else {
        let pos = candidate(t1, offset, dir);
        if !(pos <= lines.len() && matches_spec(lines, pos, ctx)) {
            lemma_place_matches(lines, ctx, t1, offset, dir + 1, last);
        }
    }
}

} // verus!
