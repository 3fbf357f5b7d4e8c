//! Patches in the context format (`*** old`, `--- new`, `***************`,
//! `*** a,b ****` and `--- c,d ----` sections).
use vstd::prelude::*;
use crate::text::{chars_of, string_of, slice_chars, starts_with_str, str_eq, is_prefix, seq_contains, contains_text};
use crate::find::expression::strings_view;
use crate::join::{trim_white, trim_white_chars};
use crate::patch::{Hunk, HunkLine, HunkView, LineView, PatchFile, PatchView, lines_view, hunks_view, patches_view,
    lines_of, content_lines, header_name, header_name_exec, strip_path_spec, strip_path, trim_start_char, trim_end_char,
    trim_start_chars, trim_end_chars, range_spec, parse_pair, push_hunk, push_patch};

verus! {

/// The lines of an old section (`- `, `! ` removed, two spaces context)
/// from `i` up to a `---` line, and where it stops.
pub open spec fn old_section(lines: Seq<Seq<char>>, i: int) -> (Seq<LineView>, int)
    decreases lines.len() - i,
{
    if 0 <= i < lines.len() && !is_prefix("---"@, lines[i]) {
        let rest = old_section(lines, i + 1);
        (old_line(lines[i]) + rest.0, rest.1)
    } else {
        (Seq::empty(), i)
    }
}

/// What a line of an old section gives.
pub open spec fn old_line(l: Seq<char>) -> Seq<LineView> {
    if is_prefix("- "@, l) || is_prefix("! "@, l) {
        seq![LineView::Remove(l.skip(2))]
    } else if is_prefix("  "@, l) {
        seq![LineView::Context(l.skip(2))]
    } else {
        Seq::empty()
    }
}

/// The lines of a new section (`+ `, `! ` added, two spaces context) from
/// `i` up to a `***` or `diff ` line, and where it stops.
pub open spec fn new_section(lines: Seq<Seq<char>>, i: int) -> (Seq<LineView>, int)
    decreases lines.len() - i,
{
    if 0 <= i < lines.len() && !is_prefix("***"@, lines[i]) && !is_prefix("diff "@, lines[i]) {
        let rest = new_section(lines, i + 1);
        (new_line(lines[i]) + rest.0, rest.1)
    } else {
        (Seq::empty(), i)
    }
}

/// What a line of a new section gives.
pub open spec fn new_line(l: Seq<char>) -> Seq<LineView> {
    if is_prefix("+ "@, l) || is_prefix("! "@, l) {
        seq![LineView::Add(l.skip(2))]
    } else if is_prefix("  "@, l) {
        seq![LineView::Context(l.skip(2))]
    } else {
        Seq::empty()
    }
}

/// The lines of a hunk from its old lines `old[oi..]` and new lines
/// `new[ni..]`: a common context line once, removed lines first, then
/// added lines, then the context lines left on either side.
pub open spec fn merge_from(old: Seq<LineView>, new: Seq<LineView>, oi: int, ni: int) -> Seq<LineView>
    decreases (old.len() - oi) + (new.len() - ni),
{
    if oi < 0 || ni < 0 || oi > old.len() || ni > new.len() || (oi == old.len() && ni == new.len()) {
        Seq::empty()
    } else {
        let o = if oi < old.len() { Some(old[oi]) } else { None };
        let n = if ni < new.len() { Some(new[ni]) } else { None };
        if o matches Some(LineView::Context(c1)) && n matches Some(LineView::Context(c2)) && c1 == c2 {
            seq![old[oi]] + merge_from(old, new, oi + 1, ni + 1)
        } else if o matches Some(LineView::Remove(_)) {
            seq![old[oi]] + merge_from(old, new, oi + 1, ni)
        } else if n matches Some(LineView::Add(_)) {
            seq![new[ni]] + merge_from(old, new, oi, ni + 1)
        } else if o matches Some(LineView::Context(_)) {
            seq![old[oi]] + merge_from(old, new, oi + 1, ni)
        } else if n matches Some(LineView::Context(_)) {
            seq![new[ni]] + merge_from(old, new, oi, ni + 1)
        } else {
            merge_from(old, new, if oi < old.len() { oi + 1 } else { oi }, if ni < new.len() { ni + 1 } else { ni })
        }
    }
}

/// The range of an old section line `*** a,b ****`.
pub open spec fn star_range(l: Seq<char>) -> Seq<char> {
    trim_white(trim_end_char(trim_white(trim_start_char(l, '*')), '*'))
}

/// The range of a new section line `--- c,d ----`.
pub open spec fn dash_range(l: Seq<char>) -> Seq<char> {
    trim_white(trim_end_char(trim_white(trim_start_char(l, '-')), '-'))
}

/// A hunk's count of lines from its first and last line numbers.
pub open spec fn span(start: usize, end: usize) -> int {
    (if end >= start { end - start } else { 0 }) + 1
}

/// One step inside the patch for one file.
pub enum ContextStep {
    Continue(PatchView, int),
    End(PatchView, int),
    Failed(Seq<char>),
    Aborts,
}

/// One step of reading the hunks of `p` at line `i`: a `***************`
/// line is passed over; a `*** a,b ****` line opens a hunk, read with its
/// `--- c,d ----` section when one follows; a `***` line without `****`
/// ends the patch.
pub open spec fn hunk_step(lines: Seq<Seq<char>>, i: int, p: PatchView) -> ContextStep {
    let star = is_prefix("***************"@, lines[i]);
    let j = if star { i + 1 } else { i };
    if j >= lines.len() {
        ContextStep::End(p, j)
    } else if is_prefix("***"@, lines[j]) && seq_contains(lines[j], "****"@) {
        match range_spec(star_range(lines[j]), true) {
            Err(e) => ContextStep::Failed(e),
            Ok((os, oe)) => {
                let (old, k) = old_section(lines, j + 1);
                if 0 <= k < lines.len() && is_prefix("---"@, lines[k]) && seq_contains(lines[k], "----"@) {
                    match range_spec(dash_range(lines[k]), true) {
                        Err(e) => ContextStep::Failed(e),
                        Ok((ns, ne)) => {
                            let (new, m) = new_section(lines, k + 1);
                            if span(os, oe) > usize::MAX || span(ns, ne) > usize::MAX {
                                ContextStep::Aborts
                            } else {
                                let h = HunkView {
                                    old_start: os,
                                    old_count: span(os, oe) as usize,
                                    new_start: ns,
                                    new_count: span(ns, ne) as usize,
                                    lines: merge_from(old, new, 0, 0),
                                };
                                ContextStep::Continue(PatchView { hunks: p.hunks.push(h), ..p }, m)
                            }
                        },
                    }
                } else {
                    ContextStep::Continue(p, k)
                }
            },
        }
    } else if is_prefix("***"@, lines[j]) {
        ContextStep::End(p, j)
    } else {
        ContextStep::Continue(p, j + 1)
    }
}

pub proof fn lemma_old_section_bounds(lines: Seq<Seq<char>>, i: int)
    requires
        0 <= i,
    ensures
        i <= old_section(lines, i).1,
        i <= lines.len() ==> old_section(lines, i).1 <= lines.len(),
    decreases lines.len() - i,
{
    if 0 <= i < lines.len() && !is_prefix("---"@, lines[i]) {
        lemma_old_section_bounds(lines, i + 1);
    }
}

pub proof fn lemma_new_section_bounds(lines: Seq<Seq<char>>, i: int)
    requires
        0 <= i,
    ensures
        i <= new_section(lines, i).1,
        i <= lines.len() ==> new_section(lines, i).1 <= lines.len(),
    decreases lines.len() - i,
{
    if 0 <= i < lines.len() && !is_prefix("***"@, lines[i]) && !is_prefix("diff "@, lines[i]) {
        lemma_new_section_bounds(lines, i + 1);
    }
}

pub proof fn lemma_hunk_step_advances(lines: Seq<Seq<char>>, i: int, p: PatchView)
    requires
        0 <= i < lines.len(),
    ensures
        match hunk_step(lines, i, p) {
            ContextStep::Continue(_, n) => i < n <= lines.len(),
            ContextStep::End(_, n) => i <= n <= lines.len(),
            _ => true,
        },
{
    let star = is_prefix("***************"@, lines[i]);
    let j = if star { i + 1 } else { i };
    if j < lines.len() {
        lemma_old_section_bounds(lines, j + 1);
        let k = old_section(lines, j + 1).1;
        if 0 <= k < lines.len() {
            lemma_new_section_bounds(lines, k + 1);
        }
    }
}

/// What reading the rest of a file's patch comes to.
pub enum PatchEnd {
    Done(PatchView, int),
    Failed(Seq<char>),
    Aborts,
}

/// The hunks of the patch `p` read from line `i` on, and the line where
/// the reading of patches goes on.
pub open spec fn patch_from(lines: Seq<Seq<char>>, i: int, p: PatchView) -> PatchEnd
    decreases lines.len() - i,
{
    if i < 0 || i >= lines.len() {
        PatchEnd::Done(p, i)
    } else {
        proof {
            lemma_hunk_step_advances(lines, i, p);
        }
        match hunk_step(lines, i, p) {
            ContextStep::Continue(p2, n) => patch_from(lines, n, p2),
            ContextStep::End(p2, n) => PatchEnd::Done(p2, n),
            ContextStep::Failed(e) => PatchEnd::Failed(e),
            ContextStep::Aborts => PatchEnd::Aborts,
        }
    }
}

/// What reading a context patch comes to.
pub enum ContextOutcome {
    Patches(Seq<PatchView>),
    Failed(Seq<char>),
    Aborts,
}

pub proof fn lemma_patch_from_bounds(lines: Seq<Seq<char>>, i: int, p: PatchView)
    requires
        0 <= i,
    ensures
        match patch_from(lines, i, p) {
            PatchEnd::Done(_, n) => i <= n && (i <= lines.len() ==> n <= lines.len()),
            _ => true,
        },
    decreases lines.len() - i,
{
    if 0 <= i < lines.len() {
        lemma_hunk_step_advances(lines, i, p);
        match hunk_step(lines, i, p) {
            ContextStep::Continue(p2, n) => lemma_patch_from_bounds(lines, n, p2),
            _ => {},
        }
    }
}

/// The patches read from line `i` on, after the patches `done`: a `***`
/// line without `****` followed by a `---` line opens the patch for one
/// file.
pub open spec fn context_from(lines: Seq<Seq<char>>, i: int, strip: nat, done: Seq<PatchView>) -> ContextOutcome
    decreases lines.len() - i,
{
    if i < 0 || i >= lines.len() {
        ContextOutcome::Patches(done)
    } else {
        let line = lines[i];
        if is_prefix("***"@, line) && !seq_contains(line, "****"@) {
            if i + 1 >= lines.len() {
                ContextOutcome::Patches(done)
            } else if !is_prefix("---"@, lines[i + 1]) {
                context_from(lines, i + 2, strip, done)
            } else {
                let p = PatchView {
                    old_file: strip_path_spec(header_name(line.skip(3)), strip),
                    new_file: strip_path_spec(header_name(lines[i + 1].skip(3)), strip),
                    hunks: Seq::empty(),
                };
                proof {
                    lemma_patch_from_bounds(lines, i + 2, p);
                }
                match patch_from(lines, i + 2, p) {
                    PatchEnd::Done(p2, n) => context_from(lines, n, strip, done.push(p2)),
                    PatchEnd::Failed(e) => ContextOutcome::Failed(e),
                    PatchEnd::Aborts => ContextOutcome::Aborts,
                }
            }
        } else {
            context_from(lines, i + 1, strip, done)
        }
    }
}

/// What a context patch holds, the file names stripped of `strip`
/// components.
pub open spec fn context_spec(content: Seq<char>, strip: nat) -> ContextOutcome {
    context_from(lines_of(content), 0, strip, Seq::empty())
}

fn prefix_of(l: &String, lit: &str) -> (r: bool)
    ensures
        r == is_prefix(lit@, l@),
{
    starts_with_str(&chars_of(l.as_str()), lit)
}

fn contains_of(l: &String, lit: &str) -> (r: bool)
    ensures
        r == seq_contains(l@, lit@),
{
    contains_text(&chars_of(l.as_str()), lit)
}

/// The rest of a line after its first two characters.
fn after_two(l: &String) -> (r: String)
    requires
        l@.len() >= 2,
    ensures
        r@ == l@.skip(2),
{
    let v = chars_of(l.as_str());
    let r = string_of(&slice_chars(&v, 2, v.len()));
    proof {
        assert(v@.subrange(2, v@.len() as int) =~= v@.skip(2));
    }
    r
}

/// What a line of an old (`old`) or new section gives.
fn section_line(l: &String, old: bool) -> (r: Vec<HunkLine>)
    ensures
        lines_view(r@) == (if old { old_line(l@) } else { new_line(l@) }),
{
    proof {
        reveal_strlit("- ");
        reveal_strlit("+ ");
        reveal_strlit("! ");
        reveal_strlit("  ");
    }
    let mut r: Vec<HunkLine> = Vec::new();
    if (old && prefix_of(l, "- ")) || (!old && prefix_of(l, "+ ")) || prefix_of(l, "! ") {
        let rest = after_two(l);
        if old {
            r.push(HunkLine::Remove(rest));
        } else {
            r.push(HunkLine::Add(rest));
        }
    } else if prefix_of(l, "  ") {
        let rest = after_two(l);
        r.push(HunkLine::Context(rest));
    }
    proof {
        assert(lines_view(r@) =~= (if old { old_line(l@) } else { new_line(l@) }));
    }
    r
}

/// Reads an old (`old`) or new section from line `i`.
fn section_exec(lines: &Vec<String>, i: usize, old: bool) -> (r: (Vec<HunkLine>, usize))
    requires
        i <= lines.len(),
    ensures
        lines_view(r.0@) == (if old { old_section(strings_view(lines@), i as int).0 } else { new_section(strings_view(lines@), i as int).0 }),
        r.1 as int == (if old { old_section(strings_view(lines@), i as int).1 } else { new_section(strings_view(lines@), i as int).1 }),
{
    let ghost sl = strings_view(lines@);
    let ghost want = if old { old_section(sl, i as int) } else { new_section(sl, i as int) };
    let mut out: Vec<HunkLine> = Vec::new();
    let mut j = i;
    proof {
        assert(lines_view(out@) + want.0 =~= want.0);
    }
    while j < lines.len()
        invariant
            i <= j <= lines.len(),
            sl == strings_view(lines@),
            want == (if old { old_section(sl, i as int) } else { new_section(sl, i as int) }),
            want.0 == lines_view(out@) + (if old { old_section(sl, j as int) } else { new_section(sl, j as int) }).0,
            want.1 == (if old { old_section(sl, j as int) } else { new_section(sl, j as int) }).1,
        ensures
            want.0 == lines_view(out@) + (if old { old_section(sl, j as int) } else { new_section(sl, j as int) }).0,
            want.1 == (if old { old_section(sl, j as int) } else { new_section(sl, j as int) }).1,
            j >= lines.len() || (old && is_prefix("---"@, sl[j as int]))
                || (!old && (is_prefix("***"@, sl[j as int]) || is_prefix("diff "@, sl[j as int]))),
        decreases lines.len() - j,
    {
        assert(sl[j as int] == lines@[j as int]@);
        if old {
            if prefix_of(&lines[j], "---") {
                break;
            }
        } else {
            if prefix_of(&lines[j], "***") || prefix_of(&lines[j], "diff ") {
                break;
            }
        }
        let got = section_line(&lines[j], old);
        let ghost before = lines_view(out@);
        let mut got = got;
        out.append(&mut got);
        proof {
            assert(lines_view(out@) =~= before + (if old { old_line(sl[j as int]) } else { new_line(sl[j as int]) }));
            let rest = if old { old_section(sl, j + 1) } else { new_section(sl, j + 1) };
            assert(before + ((if old { old_line(sl[j as int]) } else { new_line(sl[j as int]) }) + rest.0)
                =~= lines_view(out@) + rest.0);
        }
        j += 1;
    }
    proof {
        assert(lines_view(out@) + Seq::<LineView>::empty() =~= lines_view(out@));
    }
    (out, j)
}

fn line_text(l: &HunkLine) -> (r: String)
    ensures
        match l@ {
            LineView::Context(s) => r@ == s,
            LineView::Add(s) => r@ == s,
            LineView::Remove(s) => r@ == s,
        },
{
    match l {
        HunkLine::Context(s) => s.clone(),
        HunkLine::Add(s) => s.clone(),
        HunkLine::Remove(s) => s.clone(),
    }
}

fn copy_line(l: &HunkLine) -> (r: HunkLine)
    ensures
        r@ == l@,
{
    match l {
        HunkLine::Context(s) => HunkLine::Context(s.clone()),
        HunkLine::Add(s) => HunkLine::Add(s.clone()),
        HunkLine::Remove(s) => HunkLine::Remove(s.clone()),
    }
}

/// The lines of a hunk from its old and new lines.
fn merge_exec(old: &Vec<HunkLine>, new: &Vec<HunkLine>) -> (r: Vec<HunkLine>)
    ensures
        lines_view(r@) == merge_from(lines_view(old@), lines_view(new@), 0, 0),
{
    let ghost ov = lines_view(old@);
    let ghost nv = lines_view(new@);
    let mut out: Vec<HunkLine> = Vec::new();
    let mut oi: usize = 0;
    let mut ni: usize = 0;
    proof {
        assert(lines_view(out@) + merge_from(ov, nv, 0, 0) =~= merge_from(ov, nv, 0, 0));
    }
    while oi < old.len() || ni < new.len()
        invariant
            oi <= old.len(),
            ni <= new.len(),
            ov == lines_view(old@),
            nv == lines_view(new@),
            merge_from(ov, nv, 0, 0) == lines_view(out@) + merge_from(ov, nv, oi as int, ni as int),
        decreases (old.len() - oi) + (new.len() - ni),
    {
        let ghost before = lines_view(out@);
        let ghost (oi0, ni0) = (oi as int, ni as int);
        let o_ctx = oi < old.len() && matches!(old[oi], HunkLine::Context(_));
        let n_ctx = ni < new.len() && matches!(new[ni], HunkLine::Context(_));
        let o_rem = oi < old.len() && matches!(old[oi], HunkLine::Remove(_));
        let n_add = ni < new.len() && matches!(new[ni], HunkLine::Add(_));
        proof {
            if oi < old.len() {
                assert(ov[oi as int] == old@[oi as int]@);
            }
            if ni < new.len() {
                assert(nv[ni as int] == new@[ni as int]@);
            }
        }
        let same = o_ctx && n_ctx && str_eq(line_text(&old[oi]).as_str(), line_text(&new[ni]).as_str());
        if same {
            let x = copy_line(&old[oi]);
            out.push(x);
            oi += 1;
            ni += 1;
            proof {
                assert(merge_from(ov, nv, oi0, ni0) == seq![ov[oi0]] + merge_from(ov, nv, oi0 + 1, ni0 + 1));
            }
        } else if o_rem {
            let x = copy_line(&old[oi]);
            out.push(x);
            oi += 1;
            proof {
                assert(merge_from(ov, nv, oi0, ni0) == seq![ov[oi0]] + merge_from(ov, nv, oi0 + 1, ni0));
            }
        } else if n_add {
            let x = copy_line(&new[ni]);
            out.push(x);
            ni += 1;
            proof {
                assert(merge_from(ov, nv, oi0, ni0) == seq![nv[ni0]] + merge_from(ov, nv, oi0, ni0 + 1));
            }
        } else if o_ctx {
            let x = copy_line(&old[oi]);
            out.push(x);
            oi += 1;
            proof {
                assert(merge_from(ov, nv, oi0, ni0) == seq![ov[oi0]] + merge_from(ov, nv, oi0 + 1, ni0));
            }
        } else if n_ctx {
            let x = copy_line(&new[ni]);
            out.push(x);
            ni += 1;
            proof {
                assert(merge_from(ov, nv, oi0, ni0) == seq![nv[ni0]] + merge_from(ov, nv, oi0, ni0 + 1));
            }
        } else {
            if oi < old.len() {
                oi += 1;
            }
            if ni < new.len() {
                ni += 1;
            }
        }
        proof {
            let added = lines_view(out@).skip(before.len() as int);
            assert(lines_view(out@) =~= before + added);
            assert(before + (added + merge_from(ov, nv, oi as int, ni as int)) =~= lines_view(out@) + merge_from(ov, nv, oi as int, ni as int));
        }
    }
    proof {
        assert(merge_from(ov, nv, oi as int, ni as int) =~= Seq::<LineView>::empty());
        assert(lines_view(out@) + Seq::<LineView>::empty() =~= lines_view(out@));
    }
    out
}

/// The range text of a `*** a,b ****` (`star`) or `--- c,d ----` line.
fn section_range(l: &String, star: bool) -> (r: String)
    ensures
        r@ == (if star { star_range(l@) } else { dash_range(l@) }),
{
    let v = chars_of(l.as_str());
    let c = if star { '*' } else { '-' };
    let t = trim_white_chars(&trim_end_chars(&trim_white_chars(&trim_start_chars(&v, c)), c));
    string_of(&t)
}

/// One step of reading the hunks of `p` at line `i`: the patch after it,
/// the next line, and whether the patch ends there; or the error.
fn hunk_step_exec(lines: &Vec<String>, i: usize, p: PatchFile) -> (r: Result<(PatchFile, usize, bool), String>)
    requires
        i < lines.len(),
        !(hunk_step(strings_view(lines@), i as int, p@) is Aborts),
    ensures
        match hunk_step(strings_view(lines@), i as int, p@) {
            ContextStep::Continue(p2, n) => r is Ok && r->Ok_0.0@ == p2 && r->Ok_0.1 as int == n && !r->Ok_0.2,
            ContextStep::End(p2, n) => r is Ok && r->Ok_0.0@ == p2 && r->Ok_0.1 as int == n && r->Ok_0.2,
            ContextStep::Failed(e) => r is Err && r->Err_0@ == e,
            ContextStep::Aborts => false,
        },
{
    let ghost sl = strings_view(lines@);
    assert(sl[i as int] == lines@[i as int]@);
    let star = prefix_of(&lines[i], "***************");
    let j = if star { i + 1 } else { i };
    if j >= lines.len() {
        return Ok((p, j, true));
    }
    assert(sl[j as int] == lines@[j as int]@);
    if prefix_of(&lines[j], "***") && contains_of(&lines[j], "****") {
        let r1 = section_range(&lines[j], true);
        let (os, oe) = match parse_pair(r1.as_str(), true) {
            Ok(x) => x,
            Err(e) => return Err(e),
        };
        let (old, k) = section_exec(lines, j + 1, true);
        proof {
            lemma_old_section_bounds(sl, j + 1);
        }
        if k < lines.len() {
            assert(sl[k as int] == lines@[k as int]@);
        }
        if k < lines.len() && prefix_of(&lines[k], "---") && contains_of(&lines[k], "----") {
            let r2 = section_range(&lines[k], false);
            let (ns, ne) = match parse_pair(r2.as_str(), true) {
                Ok(x) => x,
                Err(e) => return Err(e),
            };
            let (new, m) = section_exec(lines, k + 1, false);
            let merged = merge_exec(&old, &new);
            let oc = (if oe >= os { oe - os } else { 0 }) + 1;
            let nc = (if ne >= ns { ne - ns } else { 0 }) + 1;
            let h = Hunk { old_start: os, old_count: oc, new_start: ns, new_count: nc, lines: merged };
            let mut p = p;
            push_hunk(&mut p, h);
            Ok((p, m, false))
        } else {
            Ok((p, k, false))
        }
    } else if prefix_of(&lines[j], "***") {
        Ok((p, j, true))
    } else {
        Ok((p, j + 1, false))
    }
}

/// Reads the hunks of `p` from line `i` on: the patch and the line where
/// the reading of patches goes on, or the error.
fn patch_from_exec(lines: &Vec<String>, start: usize, first: PatchFile) -> (r: Result<(PatchFile, usize), String>)
    requires
        start <= lines.len(),
        !(patch_from(strings_view(lines@), start as int, first@) is Aborts),
    ensures
        match patch_from(strings_view(lines@), start as int, first@) {
            PatchEnd::Done(p2, n) => r is Ok && r->Ok_0.0@ == p2 && r->Ok_0.1 as int == n,
            PatchEnd::Failed(e) => r is Err && r->Err_0@ == e,
            PatchEnd::Aborts => false,
        },
{
    let ghost sl = strings_view(lines@);
    let ghost want = patch_from(sl, start as int, first@);
    let mut i = start;
    let mut p = first;
    while i < lines.len()
        invariant
            i <= lines.len(),
            sl == strings_view(lines@),
            want == patch_from(sl, i as int, p@),
            want == patch_from(strings_view(lines@), start as int, first@),
            !(want is Aborts),
        decreases lines.len() - i,
    {
        proof {
            lemma_hunk_step_advances(sl, i as int, p@);
        }
        let ghost pv = p@;
        let ghost iv = i as int;
        assert(want == match hunk_step(sl, iv, pv) {
            ContextStep::Continue(p2, n) => patch_from(sl, n, p2),
            ContextStep::End(p2, n) => PatchEnd::Done(p2, n),
            ContextStep::Failed(e) => PatchEnd::Failed(e),
            ContextStep::Aborts => PatchEnd::Aborts,
        });
        match hunk_step_exec(lines, i, p) {
            Err(e) => return Err(e),
            Ok((p2, n, end)) => {
                if end {
                    return Ok((p2, n));
                }
                p = p2;
                i = n;
            },
        }
    }
    Ok((p, i))
}

/// Reads a patch in the context format, the file names stripped of
/// `strip_level` components: its patches, or the first error, as
/// `context_spec` says. A hunk whose count of lines would not fit in a
/// `usize` stops `patch`, so such input is left out.
pub fn parse_context_patch(content: &str, strip_level: usize) -> (r: Result<Vec<PatchFile>, String>)
    requires
        !(context_spec(content@, strip_level as nat) is Aborts),
    ensures
        match context_spec(content@, strip_level as nat) {
            ContextOutcome::Patches(v) => r is Ok && patches_view(r->Ok_0@) == v,
            ContextOutcome::Failed(e) => r is Err && r->Err_0@ == e,
            ContextOutcome::Aborts => false,
        },
{
    let lines = content_lines(content);
    let ghost sl = strings_view(lines@);
    let mut done: Vec<PatchFile> = Vec::new();
    let mut i: usize = 0;
    proof {
        assert(patches_view(done@) =~= Seq::<PatchView>::empty());
        reveal_strlit("***");
        reveal_strlit("---");
    }
    while i < lines.len()
        invariant
            i <= lines.len(),
            sl == strings_view(lines@),
            sl == lines_of(content@),
            context_spec(content@, strip_level as nat) == context_from(sl, i as int, strip_level as nat, patches_view(done@)),
            !(context_spec(content@, strip_level as nat) is Aborts),
            "***"@.len() == 3,
            "---"@.len() == 3,
        decreases lines.len() - i,
    {
        assert(sl[i as int] == lines@[i as int]@);
        if prefix_of(&lines[i], "***") && !contains_of(&lines[i], "****") {
            if i + 1 >= lines.len() {
                i = lines.len();
            } else {
                assert(sl[i + 1] == lines@[i + 1]@);
                if !prefix_of(&lines[i + 1], "---") {
                    i = i + 2;
                } else {
                    let v = chars_of(lines[i].as_str());
                    let w = chars_of(lines[i + 1].as_str());
                    let old_name = header_name_exec(&slice_chars(&v, 3, v.len()));
                    let new_name = header_name_exec(&slice_chars(&w, 3, w.len()));
                    proof {
                        assert(v@.subrange(3, v@.len() as int) =~= v@.skip(3));
                        assert(w@.subrange(3, w@.len() as int) =~= w@.skip(3));
                    }
                    let old_file = strip_path(string_of(&old_name).as_str(), strip_level);
                    let new_file = strip_path(string_of(&new_name).as_str(), strip_level);
                    let p = PatchFile { old_file: old_file, new_file: new_file, hunks: Vec::new() };
                    proof {
                        assert(p@.hunks =~= Seq::<HunkView>::empty());
                        lemma_patch_from_bounds(sl, i + 2, p@);
                    }
                    match patch_from_exec(&lines, i + 2, p) {
                        Err(e) => return Err(e),
                        Ok((p2, n)) => {
                            push_patch(&mut done, p2);
                            i = n;
                        },
                    }
                }
            }
        } else {
            i += 1;
        }
    }
    Ok(done)
}

} // verus!
