//! Patches in the normal format of `diff` (`3,5c3`, `< old`, `---`, `> new`).
use vstd::prelude::*;
use crate::text::{chars_of, string_of, slice_chars, starts_with_str, chars_eq_str, is_prefix};
use crate::find::expression::strings_view;
use crate::patch::{Hunk, HunkLine, HunkView, LineView, PatchFile, PatchView, lines_view, hunks_view, patches_view,
    lines_of, content_lines, range_spec, parse_pair};

verus! {

/// What reading a normal patch comes to: the hunks, the first error, or a
/// range whose end lies before its start, on which `patch` stops.
pub enum NormalOutcome {
    Hunks(Seq<HunkView>),
    Failed(Seq<char>),
    Aborts,
}

/// Whether `c` is a command of the normal format.
pub open spec fn is_command(c: char) -> bool {
    c == 'a' || c == 'c' || c == 'd'
}

/// Where the first command character of `s` at or after `i` stands, or
/// the length.
pub open spec fn first_command(s: Seq<char>, i: int) -> int
    decreases s.len() - i,
{
    if i < 0 || i >= s.len() {
        s.len() as int
    } else if is_command(s[i]) {
        i
    } else {
        first_command(s, i + 1)
    }
}

/// The lines from `i` on that begin with `marker` (and a space), each
/// without those two characters, as added or removed lines; and the first
/// line after them.
pub open spec fn marked_lines(lines: Seq<Seq<char>>, i: int, marker: char, add: bool) -> (Seq<LineView>, int)
    decreases lines.len() - i,
{
    if 0 <= i < lines.len() && is_prefix(seq![marker, ' '], lines[i]) {
        let rest = marked_lines(lines, i + 1, marker, add);
        let l = if add { LineView::Add(lines[i].skip(2)) } else { LineView::Remove(lines[i].skip(2)) };
        (seq![l] + rest.0, rest.1)
    } else {
        (Seq::empty(), i)
    }
}

/// The lines of a hunk with command `cmd` from line `i` on, and the line
/// after them.
pub open spec fn normal_body(lines: Seq<Seq<char>>, i: int, cmd: char) -> (Seq<LineView>, int) {
    if cmd == 'c' {
        let (removed, j) = marked_lines(lines, i, '<', false);
        let k = if 0 <= j < lines.len() && lines[j] == "---"@ { j + 1 } else { j };
        let (added, e) = marked_lines(lines, k, '>', true);
        (removed + added, e)
    } else if cmd == 'a' {
        marked_lines(lines, i, '>', true)
    } else if cmd == 'd' {
        marked_lines(lines, i, '<', false)
    } else {
        (Seq::empty(), i)
    }
}

pub proof fn lemma_marked_lines_bounds(lines: Seq<Seq<char>>, i: int, marker: char, add: bool)
    requires
        0 <= i,
    ensures
        i <= marked_lines(lines, i, marker, add).1,
        i <= lines.len() ==> marked_lines(lines, i, marker, add).1 <= lines.len(),
    decreases lines.len() - i,
{
    if 0 <= i < lines.len() && is_prefix(seq![marker, ' '], lines[i]) {
        lemma_marked_lines_bounds(lines, i + 1, marker, add);
    }
}

pub proof fn lemma_normal_body_bounds(lines: Seq<Seq<char>>, i: int, cmd: char)
    requires
        0 <= i <= lines.len(),
    ensures
        i <= normal_body(lines, i, cmd).1 <= lines.len(),
{
    lemma_marked_lines_bounds(lines, i, '<', false);
    lemma_marked_lines_bounds(lines, i, '>', true);
    let j = marked_lines(lines, i, '<', false).1;
    let k = if 0 <= j < lines.len() && lines[j] == "---"@ { j + 1 } else { j };
    lemma_marked_lines_bounds(lines, k, '>', true);
}

/// The hunks read from line `i` on, after the hunks `hunks`.
pub open spec fn normal_from(lines: Seq<Seq<char>>, i: int, hunks: Seq<HunkView>) -> NormalOutcome
    decreases lines.len() - i,
{
    if i < 0 || i >= lines.len() {
        NormalOutcome::Hunks(hunks)
    } else {
        let line = lines[i];
        let k = first_command(line, 0);
        if k >= line.len() {
            normal_from(lines, i + 1, hunks)
        } else {
            match range_spec(line.take(k), true) {
                Err(e) => NormalOutcome::Failed(e),
                Ok((os, oe)) => match range_spec(line.skip(k + 1), true) {
                    Err(e) => NormalOutcome::Failed(e),
                    Ok((ns, ne)) => if oe < os || ne < ns || oe - os + 1 > usize::MAX || ne - ns + 1 > usize::MAX {
                        NormalOutcome::Aborts
                    } else {
                        let (body, j) = normal_body(lines, i + 1, line[k]);
                        let h = HunkView {
                            old_start: os,
                            old_count: (oe - os + 1) as usize,
                            new_start: ns,
                            new_count: (ne - ns + 1) as usize,
                            lines: body,
                        };
                        proof {
                            lemma_normal_body_bounds(lines, i + 1, line[k]);
                        }
                        normal_from(lines, j, hunks.push(h))
                    },
                },
            }
        }
    }
}

/// What a normal patch holds: one patch without file names, or none when
/// it has no hunk; or the first error.
pub open spec fn normal_spec(content: Seq<char>) -> NormalOutcome {
    normal_from(lines_of(content), 0, Seq::empty())
}

/// The patches of a normal patch whose reading gave `hunks`.
pub open spec fn normal_patches(hunks: Seq<HunkView>) -> Seq<PatchView> {
    if hunks.len() == 0 {
        Seq::empty()
    } else {
        seq![PatchView { old_file: Seq::empty(), new_file: Seq::empty(), hunks: hunks }]
    }
}

/// Appends the lines from `i` on that begin with `marker` and a space.
fn push_marked(out: &mut Vec<HunkLine>, lines: &Vec<String>, i: usize, marker: char, add: bool) -> (j: usize)
    requires
        i <= lines.len(),
    ensures
        lines_view(final(out)@) == lines_view(old(out)@) + marked_lines(strings_view(lines@), i as int, marker, add).0,
        j as int == marked_lines(strings_view(lines@), i as int, marker, add).1,
        i <= j <= lines.len(),
{
    let ghost sl = strings_view(lines@);
    let ghost start = lines_view(out@);
    let mut j = i;
    proof {
        assert(start + Seq::<LineView>::empty() =~= start);
    }
    while j < lines.len()
        invariant
            i <= j <= lines.len(),
            sl == strings_view(lines@),
            marked_lines(sl, i as int, marker, add).0 == marked_lines(sl, i as int, marker, add).0,
            start + marked_lines(sl, i as int, marker, add).0 == lines_view(out@) + marked_lines(sl, j as int, marker, add).0,
            marked_lines(sl, i as int, marker, add).1 == marked_lines(sl, j as int, marker, add).1,
        ensures
            i <= j <= lines.len(),
            start + marked_lines(sl, i as int, marker, add).0 == lines_view(out@) + marked_lines(sl, j as int, marker, add).0,
            marked_lines(sl, i as int, marker, add).1 == marked_lines(sl, j as int, marker, add).1,
            j >= lines.len() || !is_prefix(seq![marker, ' '], sl[j as int]),
        decreases lines.len() - j,
    {
        let v = chars_of(lines[j].as_str());
        assert(v@ == sl[j as int]);
        let mut m: Vec<char> = Vec::new();
        m.push(marker);
        m.push(' ');
        let ms = string_of(&m);
        proof {
            assert(m@ =~= seq![marker, ' ']);
        }
        if !starts_with_str(&v, ms.as_str()) {
            break;
        }
        let rest = string_of(&slice_chars(&v, 2, v.len()));
        proof {
            assert(v@.subrange(2, v@.len() as int) =~= v@.skip(2));
        }
        let l = if add { HunkLine::Add(rest) } else { HunkLine::Remove(rest) };
        let ghost before = lines_view(out@);
        out.push(l);
        proof {
            assert(lines_view(out@) =~= before.push(l@));
            let tail = marked_lines(sl, j + 1, marker, add);
            assert(marked_lines(sl, j as int, marker, add).0 =~= seq![l@] + tail.0);
            assert(before + (seq![l@] + tail.0) =~= lines_view(out@) + tail.0);
        }
        j += 1;
    }
    proof {
        assert(marked_lines(sl, j as int, marker, add).0 =~= Seq::<LineView>::empty());
        assert(lines_view(out@) + Seq::<LineView>::empty() =~= lines_view(out@));
    }
    j
}

/// The lines of a hunk with command `cmd` from line `i` on, and the line
/// after them.
fn normal_body_exec(lines: &Vec<String>, i: usize, cmd: char) -> (r: (Vec<HunkLine>, usize))
    requires
        i <= lines.len(),
    ensures
        lines_view(r.0@) == normal_body(strings_view(lines@), i as int, cmd).0,
        r.1 as int == normal_body(strings_view(lines@), i as int, cmd).1,
{
    let ghost sl = strings_view(lines@);
    let mut out: Vec<HunkLine> = Vec::new();
    proof {
        assert(lines_view(out@) =~= Seq::<LineView>::empty());
    }
    if cmd == 'c' {
        let j = push_marked(&mut out, lines, i, '<', false);
        let mut k = j;
        if j < lines.len() {
            let w = chars_of(lines[j].as_str());
            assert(w@ == sl[j as int]);
            if chars_eq_str(&w, "---") {
                k = j + 1;
            }
        }
        let e = push_marked(&mut out, lines, k, '>', true);
        (out, e)
    } else if cmd == 'a' {
        let e = push_marked(&mut out, lines, i, '>', true);
        (out, e)
    } else if cmd == 'd' {
        let e = push_marked(&mut out, lines, i, '<', false);
        (out, e)
    } else {
        (out, i)
    }
}

/// Reads a patch in the normal format: its one patch (none when it has no
/// hunk), or the first error, as `normal_spec` says. A range whose end
/// lies before its start stops `patch`, so such input is left out.
pub fn parse_normal_patch(content: &str, _strip_level: usize) -> (r: Result<Vec<PatchFile>, String>)
    requires
        !(normal_spec(content@) is Aborts),
    ensures
        match normal_spec(content@) {
            NormalOutcome::Hunks(h) => r is Ok && patches_view(r->Ok_0@) == normal_patches(h),
            NormalOutcome::Failed(e) => r is Err && r->Err_0@ == e,
            NormalOutcome::Aborts => false,
        },
{
    let lines = content_lines(content);
    let ghost sl = strings_view(lines@);
    let mut hunks: Vec<Hunk> = Vec::new();
    let mut i: usize = 0;
    proof {
        assert(hunks_view(hunks@) =~= Seq::<HunkView>::empty());
    }
    while i < lines.len()
        invariant
            i <= lines.len(),
            sl == strings_view(lines@),
            sl == lines_of(content@),
            normal_spec(content@) == normal_from(sl, i as int, hunks_view(hunks@)),
            !(normal_spec(content@) is Aborts),
        decreases lines.len() - i,
    {
        let v = chars_of(lines[i].as_str());
        assert(v@ == sl[i as int]);
        let mut k: usize = 0;
        while k < v.len() && !(v[k] == 'a' || v[k] == 'c' || v[k] == 'd')
            invariant
                k <= v.len(),
                first_command(v@, 0) == first_command(v@, k as int),
            decreases v.len() - k,
        {
            k += 1;
        }
        if k >= v.len() {
            i += 1;
        } else {
            let left = string_of(&slice_chars(&v, 0, k));
            let right = string_of(&slice_chars(&v, k + 1, v.len()));
            proof {
                assert(v@.subrange(0, k as int) =~= v@.take(k as int));
                assert(v@.subrange(k + 1, v@.len() as int) =~= v@.skip(k + 1));
            }
            let (os, oe) = match parse_pair(left.as_str(), true) {
                Ok(p) => p,
                Err(e) => return Err(e),
            };
            let (ns, ne) = match parse_pair(right.as_str(), true) {
                Ok(p) => p,
                Err(e) => return Err(e),
            };
            let (body, j) = normal_body_exec(&lines, i + 1, v[k]);
            proof {
                lemma_normal_body_bounds(sl, i + 1, v@[k as int]);
            }
            let h = Hunk { old_start: os, old_count: oe - os + 1, new_start: ns, new_count: ne - ns + 1, lines: body };
            let ghost before = hunks_view(hunks@);
            hunks.push(h);
            proof {
                assert(hunks_view(hunks@) =~= before.push(h@));
            }
            i = j;
        }
    }
    if hunks.len() == 0 {
        let none: Vec<PatchFile> = Vec::new();
        proof {
            assert(patches_view(none@) =~= Seq::<PatchView>::empty());
        }
        return Ok(none);
    }
    let p = PatchFile { old_file: String::new(), new_file: String::new(), hunks: hunks };
    let mut out: Vec<PatchFile> = Vec::new();
    out.push(p);
    proof {
        assert(patches_view(out@) =~= seq![p@]);
    }
    Ok(out)
}

} // verus!
