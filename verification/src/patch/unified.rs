//! Patches in the unified format (`---`, `+++`, `@@ -a,b +c,d @@`).
use vstd::prelude::*;
use crate::text::{chars_of, string_of, slice_chars, starts_with_str, chars_eq_str, concat, is_prefix};
use crate::find::expression::strings_view;
use crate::join::{words_from, split_words};
use crate::patch::{Hunk, HunkLine, HunkView, LineView, PatchFile, PatchView, patches_view, lines_of, content_lines,
    push_hunk, push_hunk_line, push_patch, header_name, header_name_exec, strip_path_spec, strip_path,
    trim_start_char, trim_start_chars, range_spec, parse_pair};

verus! {

/// Where the reading of a unified patch stands: the patches done, the one
/// being read, and the hunk being read (which may precede any patch).
pub struct UnifiedState {
    pub patches: Seq<PatchView>,
    pub cur: Option<PatchView>,
    pub hunk: Option<HunkView>,
}

pub open spec fn opt_patch(o: Option<PatchFile>) -> Option<PatchView> {
    match o {
        Some(p) => Some(p@),
        None => None,
    }
}

pub open spec fn opt_hunk(o: Option<Hunk>) -> Option<HunkView> {
    match o {
        Some(h) => Some(h@),
        None => None,
    }
}

/// `p` with the hunk `h` added, when there is one.
pub open spec fn with_hunk(p: PatchView, h: Option<HunkView>) -> PatchView {
    match h {
        Some(h) => PatchView { hunks: p.hunks.push(h), ..p },
        None => p,
    }
}

/// The patches done once the current patch, with its current hunk, is
/// closed.
pub open spec fn closed_patches(st: UnifiedState) -> Seq<PatchView> {
    match st.cur {
        Some(p) => st.patches.push(with_hunk(p, st.hunk)),
        None => st.patches,
    }
}

/// A file name of a header line: none for `/dev/null`, else the path
/// stripped of `strip` components.
pub open spec fn named_path(name: Seq<char>, strip: nat) -> Seq<char> {
    if name == "/dev/null"@ {
        Seq::empty()
    } else {
        strip_path_spec(name, strip)
    }
}

/// A line inside a hunk: `-` removed, `+` added, a space or nothing for
/// context; other lines (such as `\ No newline`) are not hunk lines.
pub open spec fn hunk_line_of(line: Seq<char>) -> Option<LineView> {
    if line.len() == 0 {
        Some(LineView::Context(Seq::empty()))
    } else if line[0] == '-' {
        Some(LineView::Remove(line.skip(1)))
    } else if line[0] == '+' {
        Some(LineView::Add(line.skip(1)))
    } else if line[0] == ' ' {
        Some(LineView::Context(line.skip(1)))
    } else {
        None
    }
}

/// The hunk that a `@@` line opens, or the error.
pub open spec fn hunk_header(line: Seq<char>) -> Result<HunkView, Seq<char>> {
    let parts = words_from(line, None, 0);
    if parts.len() < 3 {
        Err("無効なハンクヘッダー: "@ + line)
    } else {
        match range_spec(trim_start_char(parts[1], '-'), false) {
            Err(e) => Err(e),
            Ok((os, oc)) => match range_spec(trim_start_char(parts[2], '+'), false) {
                Err(e) => Err(e),
                Ok((ns, nc)) => Ok(HunkView { old_start: os, old_count: oc, new_start: ns, new_count: nc, lines: Seq::empty() }),
            },
        }
    }
}

/// One step of the reading at line `i`: the state after it and the next
/// line, or the error.
pub open spec fn unified_step(lines: Seq<Seq<char>>, i: int, strip: nat, st: UnifiedState) -> Result<(UnifiedState, int), Seq<char>> {
    let line = lines[i];
    if is_prefix("---"@, line) {
        if i + 1 >= lines.len() || !is_prefix("+++"@, lines[i + 1]) {
            Err("無効なパッチ形式: +++ 行がありません"@)
        } else {
            let p = PatchView {
                old_file: named_path(header_name(line.skip(3)), strip),
                new_file: named_path(header_name(lines[i + 1].skip(3)), strip),
                hunks: Seq::empty(),
            };
            Ok((UnifiedState {
                patches: closed_patches(st),
                cur: Some(p),
                hunk: if st.cur is Some { None } else { st.hunk },
            }, i + 2))
        }
    } else if is_prefix("@@"@, line) {
        let cur = match st.cur {
            Some(p) => Some(with_hunk(p, st.hunk)),
            None => None,
        };
        match hunk_header(line) {
            Err(e) => Err(e),
            Ok(h) => Ok((UnifiedState { patches: st.patches, cur: cur, hunk: Some(h) }, i + 1)),
        }
    } else {
        match st.hunk {
            Some(h) => match hunk_line_of(line) {
                Some(l) => Ok((UnifiedState { hunk: Some(HunkView { lines: h.lines.push(l), ..h }), ..st }, i + 1)),
                None => Ok((st, i + 1)),
            },
            None => Ok((st, i + 1)),
        }
    }
}

/// The patches read from line `i` on, or the first error.
pub open spec fn unified_from(lines: Seq<Seq<char>>, i: int, strip: nat, st: UnifiedState) -> Result<Seq<PatchView>, Seq<char>>
    decreases lines.len() - i,
{
    if i < 0 || i >= lines.len() {
        Ok(closed_patches(st))
    } else {
        match unified_step(lines, i, strip, st) {
            Err(e) => Err(e),
            Ok((s2, next)) => if next > i {
                unified_from(lines, next, strip, s2)
            } else {
                Ok(closed_patches(s2))
            },
        }
    }
}

/// What a unified patch holds: its patches, or the first error.
pub open spec fn unified_spec(content: Seq<char>, strip: nat) -> Result<Seq<PatchView>, Seq<char>> {
    unified_from(lines_of(content), 0, strip, UnifiedState { patches: Seq::empty(), cur: None, hunk: None })
}

/// The reading state as the program holds it.
pub struct UnifiedParse {
    pub patches: Vec<PatchFile>,
    pub cur: Option<PatchFile>,
    pub hunk: Option<Hunk>,
}

impl View for UnifiedParse {
    type V = UnifiedState;

    open spec fn view(&self) -> UnifiedState {
        UnifiedState { patches: patches_view(self.patches@), cur: opt_patch(self.cur), hunk: opt_hunk(self.hunk) }
    }
}

/// Closes the current patch: the patches done, and the hunk left over
/// when there was no patch to take it.
fn close_patch(st: UnifiedParse) -> (r: (Vec<PatchFile>, Option<Hunk>))
    ensures
        patches_view(r.0@) == closed_patches(st@),
        opt_hunk(r.1) == (if st@.cur is Some { None } else { st@.hunk }),
{
    let UnifiedParse { patches, cur, hunk } = st;
    let mut patches = patches;
    match cur {
        Some(p) => {
            let mut p = p;
            match hunk {
                Some(h) => push_hunk(&mut p, h),
                None => {},
            }
            push_patch(&mut patches, p);
            (patches, None)
        },
        None => (patches, hunk),
    }
}

/// A file name of a header line, from what follows the marker.
fn named_path_exec(rest: &[char], strip: usize) -> (r: String)
    ensures
        r@ == named_path(header_name(rest@), strip as nat),
{
    let name = header_name_exec(rest);
    if chars_eq_str(&name, "/dev/null") {
        String::new()
    } else {
        let s = string_of(&name);
        strip_path(s.as_str(), strip)
    }
}

/// A line inside a hunk.
fn hunk_line_exec(v: &[char]) -> (r: Option<HunkLine>)
    ensures
        match hunk_line_of(v@) {
            Some(l) => r is Some && r->Some_0@ == l,
            None => r is None,
        },
{
    if v.len() == 0 {
        Some(HunkLine::Context(String::new()))
    } else {
        let rest = string_of(&slice_chars(v, 1, v.len()));
        proof {
            assert(v@.subrange(1, v@.len() as int) =~= v@.skip(1));
        }
        if v[0] == '-' {
            Some(HunkLine::Remove(rest))
        } else if v[0] == '+' {
            Some(HunkLine::Add(rest))
        } else if v[0] == ' ' {
            Some(HunkLine::Context(rest))
        } else {
            None
        }
    }
}

/// The hunk that a `@@` line opens.
fn hunk_header_exec(line: &str) -> (r: Result<Hunk, String>)
    ensures
        match hunk_header(line@) {
            Ok(h) => r is Ok && r->Ok_0@ == h,
            Err(e) => r is Err && r->Err_0@ == e,
        },
{
    let v = chars_of(line);
    let parts = split_words(&v);
    if parts.len() < 3 {
        return Err(concat("無効なハンクヘッダー: ", line));
    }
    let a = trim_start_chars(&chars_of(parts[1].as_str()), '-');
    let b = trim_start_chars(&chars_of(parts[2].as_str()), '+');
    let (os, oc) = match parse_pair(string_of(&a).as_str(), false) {
        Ok(p) => p,
        Err(e) => return Err(e),
    };
    let (ns, nc) = match parse_pair(string_of(&b).as_str(), false) {
        Ok(p) => p,
        Err(e) => return Err(e),
    };
    let h = Hunk { old_start: os, old_count: oc, new_start: ns, new_count: nc, lines: Vec::new() };
    proof {
        assert(h@.lines =~= Seq::<LineView>::empty());
    }
    Ok(h)
}

/// One step of the reading at line `i`.
fn unified_step_exec(lines: &Vec<String>, i: usize, strip: usize, st: UnifiedParse) -> (r: Result<(UnifiedParse, usize), String>)
    requires
        i < lines.len(),
    ensures
        match unified_step(strings_view(lines@), i as int, strip as nat, st@) {
            Ok((s2, next)) => r is Ok && r->Ok_0.0@ == s2 && r->Ok_0.1 as int == next,
            Err(e) => r is Err && r->Err_0@ == e,
        },
{
    let ghost sl = strings_view(lines@);
    let v = chars_of(lines[i].as_str());
    assert(v@ == sl[i as int]);
    if starts_with_str(&v, "---") {
        if i + 1 >= lines.len() {
            return Err(String::from_str("無効なパッチ形式: +++ 行がありません"));
        }
        let w = chars_of(lines[i + 1].as_str());
        assert(w@ == sl[i + 1]);
        if !starts_with_str(&w, "+++") {
            return Err(String::from_str("無効なパッチ形式: +++ 行がありません"));
        }
        proof {
            reveal_strlit("---");
            reveal_strlit("+++");
        }
        let old_name = named_path_exec(&slice_chars(&v, 3, v.len()), strip);
        let new_name = named_path_exec(&slice_chars(&w, 3, w.len()), strip);
        proof {
            assert(v@.subrange(3, v@.len() as int) =~= v@.skip(3));
            assert(w@.subrange(3, w@.len() as int) =~= w@.skip(3));
        }
        let (patches, hunk) = close_patch(st);
        let p = PatchFile { old_file: old_name, new_file: new_name, hunks: Vec::new() };
        proof {
            assert(p@.hunks =~= Seq::<HunkView>::empty());
        }
        Ok((UnifiedParse { patches: patches, cur: Some(p), hunk: hunk }, i + 2))
    } else if starts_with_str(&v, "@@") {
        let UnifiedParse { patches, cur, hunk } = st;
        let cur2 = match cur {
            Some(p) => {
                let mut p = p;
                match hunk {
                    Some(h) => push_hunk(&mut p, h),
                    None => {},
                }
                Some(p)
            },
            None => None,
        };
        match hunk_header_exec(lines[i].as_str()) {
            Err(e) => Err(e),
            Ok(h) => Ok((UnifiedParse { patches: patches, cur: cur2, hunk: Some(h) }, i + 1)),
        }
    } else {
        let UnifiedParse { patches, cur, hunk } = st;
        match hunk {
            Some(h) => {
                let mut h = h;
                match hunk_line_exec(&v) {
                    Some(l) => push_hunk_line(&mut h, l),
                    None => {},
                }
                Ok((UnifiedParse { patches: patches, cur: cur, hunk: Some(h) }, i + 1))
            },
            None => Ok((UnifiedParse { patches: patches, cur: cur, hunk: None }, i + 1)),
        }
    }
}

/// Reads a patch in the unified format, the file names stripped of
/// `strip_level` components: its patches, or the first error, as
/// `unified_spec` says.
pub fn parse_unified_patch(content: &str, strip_level: usize) -> (r: Result<Vec<PatchFile>, String>)
    ensures
        match unified_spec(content@, strip_level as nat) {
            Ok(v) => r is Ok && patches_view(r->Ok_0@) == v,
            Err(e) => r is Err && r->Err_0@ == e,
        },
{
    let lines = content_lines(content);
    let ghost sl = strings_view(lines@);
    let mut st = UnifiedParse { patches: Vec::new(), cur: None, hunk: None };
    proof {
        assert(patches_view(st.patches@) =~= Seq::<PatchView>::empty());
    }
    let mut i: usize = 0;
    while i < lines.len()
        invariant
            i <= lines.len(),
            sl == strings_view(lines@),
            sl == lines_of(content@),
            unified_spec(content@, strip_level as nat) == unified_from(sl, i as int, strip_level as nat, st@),
        decreases lines.len() - i,
    {
        match unified_step_exec(&lines, i, strip_level, st) {
            Err(e) => return Err(e),
            Ok((s2, next)) => {
                st = s2;
                i = next;
            },
        }
    }
    let (patches, _) = close_patch(st);
    Ok(patches)
}

} // verus!
