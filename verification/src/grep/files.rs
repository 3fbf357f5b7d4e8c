//! Which patterns and files `grep` works on, and how it names them.
use vstd::prelude::*;
use crate::text::{chars_of, string_of, slice_chars, starts_with_str, is_prefix, file_name_of, path_file_name, split_on, push_pieces};
use crate::find::expression::strings_view;
use crate::grep::options::{Options, SOptions};
use crate::grep::patterns::{glob_match_path, glob_match_path_spec, normalize_path_for_glob, normalized_path_spec};

verus! {

/// Whether a pattern entry is a marked file operand.
pub open spec fn is_file_mark(p: Seq<char>) -> bool {
    is_prefix("\0FILE:"@, p)
}

/// The patterns of the command line (not the file operands), each split
/// at its newlines, from entry `k` on.
pub open spec fn patterns_from(ps: Seq<Seq<char>>, k: int) -> Seq<Seq<char>>
    decreases ps.len() - k,
{
    if k >= ps.len() || k < 0 {
        Seq::empty()
    } else if is_file_mark(ps[k]) {
        patterns_from(ps, k + 1)
    } else {
        split_on(ps[k], '\n') + patterns_from(ps, k + 1)
    }
}

/// The patterns to search for: those of the command line, each split at
/// its newlines, then the lines of the pattern file (`file_lines`, read
/// by the caller).
pub fn collect_patterns(opts: &Options, file_lines: &Vec<String>) -> (r: Vec<String>)
    ensures
        strings_view(r@) == patterns_from(opts@.texts.patterns, 0) + strings_view(file_lines@),
{
    let ghost ps = opts@.texts.patterns;
    let mut r: Vec<String> = Vec::new();
    let mut k: usize = 0;
    proof {
        assert(strings_view(r@) + patterns_from(ps, 0) =~= patterns_from(ps, 0));
    }
    while k < opts.texts.patterns.len()
        invariant
            k <= opts.texts.patterns.len(),
            ps == opts@.texts.patterns,
            ps == strings_view(opts.texts.patterns@),
            patterns_from(ps, 0) == strings_view(r@) + patterns_from(ps, k as int),
        decreases opts.texts.patterns.len() - k,
    {
        let p = opts.texts.patterns[k].as_str();
        let pv = chars_of(p);
        proof {
            reveal_strlit("\0FILE:");
        }
        if !starts_with_str(&pv, "\0FILE:") {
            let ghost before = strings_view(r@);
            push_pieces(&mut r, p, '\n');
            proof {
                assert(before + (split_on(ps[k as int], '\n') + patterns_from(ps, k + 1))
                    =~= strings_view(r@) + patterns_from(ps, k + 1));
            }
        }
        k += 1;
    }
    let ghost mid = strings_view(r@);
    let mut j: usize = 0;
    while j < file_lines.len()
        invariant
            j <= file_lines.len(),
            strings_view(r@) == mid + strings_view(file_lines@).take(j as int),
        decreases file_lines.len() - j,
    {
        let ghost before = strings_view(r@);
        r.push(file_lines[j].clone());
        proof {
            assert(strings_view(r@) =~= before.push(file_lines@[j as int]@));
            assert(strings_view(file_lines@).take(j + 1) =~= strings_view(file_lines@).take(j as int).push(file_lines@[j as int]@));
        }
        j += 1;
    }
    proof {
        assert(strings_view(file_lines@).take(file_lines.len() as int) =~= strings_view(file_lines@));
        assert(patterns_from(ps, opts.texts.patterns.len() as int) =~= Seq::<Seq<char>>::empty());
    }
    r
}

/// `s` without every leading repetition of `"\0FILE:"`.
pub open spec fn trim_marks(s: Seq<char>) -> Seq<char>
    decreases s.len(),
{
    if s.len() >= 6 && is_file_mark(s) {
        trim_marks(s.skip(6))
    } else {
        s
    }
}

/// The file operands among the patterns, from entry `k` on.
pub open spec fn operands_from(ps: Seq<Seq<char>>, k: int) -> Seq<Seq<char>>
    decreases ps.len() - k,
{
    if k >= ps.len() || k < 0 {
        Seq::empty()
    } else if is_file_mark(ps[k]) {
        seq![trim_marks(ps[k])] + operands_from(ps, k + 1)
    } else {
        operands_from(ps, k + 1)
    }
}

/// `v` without every leading `"\0FILE:"`.
fn trim_marks_exec(v: &Vec<char>) -> (r: Vec<char>)
    ensures
        r@ == trim_marks(v@),
{
    proof {
        reveal_strlit("\0FILE:");
    }
    let mut cur = slice_chars(v, 0, v.len());
    proof {
        assert(cur@ =~= v@);
    }
    while cur.len() >= 6 && starts_with_str(&cur, "\0FILE:")
        invariant
            trim_marks(cur@) == trim_marks(v@),
        decreases cur.len(),
    {
        let next = slice_chars(&cur, 6, cur.len());
        proof {
            assert(next@ =~= cur@.skip(6));
        }
        cur = next;
    }
    cur
}

/// The file operands, which the patterns hold marked; globs among them are
/// for the caller to expand.
pub fn file_operands(opts: &Options) -> (r: Vec<String>)
    ensures
        strings_view(r@) == operands_from(opts@.texts.patterns, 0),
{
    let ghost ps = opts@.texts.patterns;
    let mut r: Vec<String> = Vec::new();
    let mut k: usize = 0;
    proof {
        assert(strings_view(r@) + operands_from(ps, 0) =~= operands_from(ps, 0));
    }
    while k < opts.texts.patterns.len()
        invariant
            k <= opts.texts.patterns.len(),
            ps == strings_view(opts.texts.patterns@),
            operands_from(ps, 0) == strings_view(r@) + operands_from(ps, k as int),
        decreases opts.texts.patterns.len() - k,
    {
        let pv = chars_of(opts.texts.patterns[k].as_str());
        proof {
            reveal_strlit("\0FILE:");
        }
        if starts_with_str(&pv, "\0FILE:") {
            let t = trim_marks_exec(&pv);
            let ghost before = strings_view(r@);
            r.push(string_of(&t));
            proof {
                assert(strings_view(r@) =~= before.push(t@));
                assert(before + (seq![trim_marks(ps[k as int])] + operands_from(ps, k + 1))
                    =~= strings_view(r@) + operands_from(ps, k + 1));
            }
        }
        k += 1;
    }
    proof {
        assert(operands_from(ps, opts.texts.patterns.len() as int) =~= Seq::<Seq<char>>::empty());
    }
    r
}

/// The lines of context before and after a match: `-C` when given, else
/// `-B` and `-A`.
pub fn context_lengths(opts: &Options) -> (r: (usize, usize))
    ensures
        r == (if opts@.limits.context > 0 {
            (opts@.limits.context, opts@.limits.context)
        } else {
            (opts@.limits.before_context, opts@.limits.after_context)
        }),
{
    if opts.limits.context > 0 {
        (opts.limits.context, opts.limits.context)
    } else {
        (opts.limits.before_context, opts.limits.after_context)
    }
}

/// Whether file names stand before the lines: not with `-h`, always with
/// `-H`, else when there are several files or the search is recursive.
pub fn show_filename(opts: &Options, file_count: usize) -> (r: bool)
    ensures
        r == (if opts@.naming.no_filename {
            false
        } else if opts@.naming.with_filename {
            true
        } else {
            file_count > 1 || opts@.files.recursive
        }),
{
    if opts.naming.no_filename {
        false
    } else if opts.naming.with_filename {
        true
    } else {
        file_count > 1 || opts.files.recursive
    }
}

/// The name of standard input: the `--label`, or `(standard input)`, shown
/// only with `-H`.
pub fn stdin_label(opts: &Options) -> (r: Option<String>)
    ensures
        match r {
            Some(l) => opts@.naming.with_filename && l@ == match opts@.texts.label {
                Some(x) => x,
                None => "(standard input)"@,
            },
            None => !opts@.naming.with_filename,
        },
{
    if opts.naming.with_filename {
        match &opts.texts.label {
            Some(l) => Some(l.clone()),
            None => Some(String::from_str("(standard input)")),
        }
    } else {
        None
    }
}

/// A file's name as printed: with `/` for `\` in a recursive search, and
/// without a leading `./` when the search started at `.` by default.
pub open spec fn display_name_spec(path: Seq<char>, o: SOptions) -> Seq<char> {
    let a = if o.files.recursive { crate::grep::patterns::forward_slashes(path) } else { path };
    if o.files.strip_dot_prefix && is_prefix("./"@, a) { a.skip(2) } else { a }
}

/// A file's name as printed.
pub fn display_name(path: &str, opts: &Options) -> (r: String)
    ensures
        r@ == display_name_spec(path@, opts@),
{
    let v = chars_of(path);
    let mut a: Vec<char> = Vec::new();
    let mut i: usize = 0;
    while i < v.len()
        invariant
            i <= v.len(),
            v@ == path@,
            a@ == (if opts@.files.recursive { crate::grep::patterns::forward_slashes(v@.take(i as int)) } else { v@.take(i as int) }),
        decreases v.len() - i,
    {
        let c = v[i];
        let d = if opts.files.recursive && c == '\\' { '/' } else { c };
        a.push(d);
        proof {
            assert(v@.take(i + 1) =~= v@.take(i as int).push(c));
            assert(crate::grep::patterns::forward_slashes(v@.take(i + 1)) =~= crate::grep::patterns::forward_slashes(v@.take(i as int)).push(
                if c == '\\' { '/' } else { c }));
        }
        i += 1;
    }
    proof {
        assert(v@.take(v.len() as int) =~= v@);
        reveal_strlit("./");
    }
    if opts.files.strip_dot_prefix && starts_with_str(&a, "./") {
        let rest = slice_chars(&a, 2, a.len());
        proof {
            assert(rest@ =~= a@.skip(2));
        }
        string_of(&rest)
    } else {
        string_of(&a)
    }
}

/// The base name of a path, or nothing.
pub open spec fn base_name(path: Seq<char>) -> Seq<char> {
    match file_name_of(path) {
        Some(n) => n,
        None => Seq::empty(),
    }
}

/// Whether a pattern of `ps[k..]` matches the file.
pub open spec fn any_glob_from(ps: Seq<Seq<char>>, k: int, base: Seq<char>, path: Seq<char>) -> bool
    decreases ps.len() - k,
{
    if k >= ps.len() || k < 0 {
        false
    } else {
        glob_match_path_spec(ps[k], base, path) || any_glob_from(ps, k + 1, base, path)
    }
}

/// Whether a pattern of the list matches the file.
fn any_glob(ps: &Vec<String>, base: &str, path: &str) -> (r: bool)
    ensures
        r == any_glob_from(strings_view(ps@), 0, base@, path@),
{
    let ghost sp = strings_view(ps@);
    let mut k: usize = 0;
    while k < ps.len()
        invariant
            k <= ps.len(),
            sp == strings_view(ps@),
            any_glob_from(sp, 0, base@, path@) == any_glob_from(sp, k as int, base@, path@),
        decreases ps.len() - k,
    {
        if glob_match_path(ps[k].as_str(), base, path) {
            return true;
        }
        k += 1;
    }
    false
}

/// Whether a file is searched: it matches an `--include` pattern when
/// there are any, and no `--exclude` pattern.
pub open spec fn process_file_spec(path: Seq<char>, o: SOptions) -> bool {
    let base = base_name(path);
    let norm = normalized_path_spec(path);
    (o.texts.include_patterns.len() == 0 || any_glob_from(o.texts.include_patterns, 0, base, norm))
        && !any_glob_from(o.texts.exclude_patterns, 0, base, norm)
}

/// The base name of a path as text.
fn base_name_text(path: &str) -> (r: String)
    ensures
        r@ == base_name(path@),
{
    match path_file_name(path) {
        Some(n) => n,
        None => String::new(),
    }
}

/// Whether a file is searched.
pub fn should_process_file(path: &str, opts: &Options) -> (r: bool)
    ensures
        r == process_file_spec(path@, opts@),
{
    let base = base_name_text(path);
    let norm = normalize_path_for_glob(path);
    if opts.texts.include_patterns.len() > 0 && !any_glob(&opts.texts.include_patterns, base.as_str(), norm.as_str()) {
        return false;
    }
    !any_glob(&opts.texts.exclude_patterns, base.as_str(), norm.as_str())
}

/// Whether a directory is entered: no `--exclude-dir` pattern matches it.
pub fn should_process_dir(path: &str, opts: &Options) -> (r: bool)
    ensures
        r == !any_glob_from(opts@.texts.exclude_dir, 0, base_name(path@), normalized_path_spec(path@)),
{
    let base = base_name_text(path);
    let norm = normalize_path_for_glob(path);
    !any_glob(&opts.texts.exclude_dir, base.as_str(), norm.as_str())
}

} // verus!
