//! Patterns of `grep`: the globs that pick files and the translation of
//! basic regular expressions.
use vstd::prelude::*;
use crate::text::{chars_of, contains_char, is_prefix, push_char, push_chars, slice_chars, starts_with_str};
use crate::matching::{glob_match_with_of, glob_matches_with};

verus! {

/// A file operand is a glob when it holds `*`, `?` or `[`.
pub open spec fn is_glob_spec(path: Seq<char>) -> bool {
    path.contains('*') || path.contains('?') || path.contains('[')
}

/// Whether a file operand is a glob to be expanded.
pub fn is_glob_pattern(path: &str) -> (r: bool)
    ensures
        r == is_glob_spec(path@),
{
    let v = chars_of(path);
    contains_char(&v, '*') || contains_char(&v, '?') || contains_char(&v, '[')
}

/// Whether `text` matches the glob `pattern`: case-sensitive, `/` matched
/// only by a `/` of the pattern, and a leading `.` matched by wildcards.
pub open spec fn glob_match_spec(pattern: Seq<char>, text: Seq<char>) -> bool {
    glob_match_with_of(pattern, text, true, true, false)
}

/// Whether `text` matches the glob `pattern` (a pattern that does not
/// compile matches nothing).
pub fn glob_match(pattern: &str, text: &str) -> (r: bool)
    ensures
        r == glob_match_spec(pattern@, text@),
{
    glob_matches_with(pattern, text, true, true, false)
}

/// A pattern with a `/` is matched against the whole path, then against
/// the base name; any other against the base name.
pub open spec fn glob_match_path_spec(pattern: Seq<char>, basename: Seq<char>, path: Seq<char>) -> bool {
    if pattern.contains('/') {
        glob_match_spec(pattern, path) || glob_match_spec(pattern, basename)
    } else {
        glob_match_spec(pattern, basename)
    }
}

/// Whether a file, by its base name and its normalised path, matches an
/// `--include`, `--exclude` or `--exclude-dir` pattern.
pub fn glob_match_path(pattern: &str, basename: &str, normalized_path: &str) -> (r: bool)
    ensures
        r == glob_match_path_spec(pattern@, basename@, normalized_path@),
{
    let pv = chars_of(pattern);
    if contains_char(&pv, '/') {
        glob_match(pattern, normalized_path) || glob_match(pattern, basename)
    } else {
        glob_match(pattern, basename)
    }
}

/// `s` with every `\` turned into `/`.
pub open spec fn forward_slashes(s: Seq<char>) -> Seq<char> {
    s.map_values(|c: char| if c == '\\' { '/' } else { c })
}

/// A path as globs see it: `\` turned into `/`, and a leading `./` dropped.
pub open spec fn normalized_path_spec(path: Seq<char>) -> Seq<char> {
    let t = forward_slashes(path);
    if is_prefix("./"@, t) {
        t.skip(2)
    } else {
        t
    }
}

/// A path as globs see it: `\` turned into `/`, and a leading `./`
/// dropped.
pub fn normalize_path_for_glob(path: &str) -> (r: String)
    ensures
        r@ == normalized_path_spec(path@),
{
    let v = chars_of(path);
    let mut t: Vec<char> = Vec::new();
    let mut i: usize = 0;
    while i < v.len()
        invariant
            i <= v.len(),
            t@ == forward_slashes(v@.take(i as int)),
        decreases v.len() - i,
    {
        let c = v[i];
        t.push(if c == '\\' { '/' } else { c });
        proof {
            assert(forward_slashes(v@.take(i + 1)) =~= forward_slashes(v@.take(i as int)).push(
                if c == '\\' { '/' } else { c },
            ));
        }
        i += 1;
    }
    proof {
        assert(v@.take(v.len() as int) =~= v@);
        reveal_strlit("./");
    }
    let mut r = String::new();
    if starts_with_str(&t, "./") {
        let rest = slice_chars(&t, 2, t.len());
        push_chars(&mut r, &rest);
        proof {
            assert(rest@ =~= t@.skip(2));
            assert(r@ =~= rest@);
        }
    } else {
        push_chars(&mut r, &t);
        proof {
            assert(r@ =~= t@);
        }
    }
    r
}

/// The characters that are literal in a basic regular expression and
/// special in an extended one (and the reverse when escaped).
pub open spec fn is_bre_swapped(c: char) -> bool {
    c == '(' || c == ')' || c == '{' || c == '}' || c == '+' || c == '?' || c == '|'
}

/// A basic regular expression written as an extended one: `\(`, `\+` and
/// the like become special, `(`, `+` and the like become literal, `\<` and
/// `\>` become word boundaries, and other escapes stay as they are.
pub open spec fn bre_to_ere(s: Seq<char>) -> Seq<char>
    decreases s.len(),
{
    if s.len() == 0 {
        Seq::empty()
    } else if s[0] == '\\' && s.len() >= 2 {
        let c = s[1];
        let head = if is_bre_swapped(c) {
            seq![c]
        } else if c == '<' || c == '>' {
            seq!['\\', 'b']
        } else {
            seq!['\\', c]
        };
        head + bre_to_ere(s.skip(2))
    } else {
        let head = if is_bre_swapped(s[0]) {
            seq!['\\', s[0]]
        } else {
            seq![s[0]]
        };
        head + bre_to_ere(s.skip(1))
    }
}

/// A basic regular expression read as an extended one: each of
/// `( ) { } + ? |` escaped becomes the bare operator, and bare becomes the
/// escaped literal; `\<` and `\>` become `\b`; any other character is kept,
/// and the rest of the pattern is converted on its own.
pub proof fn lemma_bre_swaps(c: char, rest: Seq<char>)
    ensures
        (c == '(' || c == ')' || c == '{' || c == '}' || c == '+' || c == '?' || c == '|') ==> {
            &&& bre_to_ere(seq!['\\', c] + rest) == seq![c] + bre_to_ere(rest)
            &&& bre_to_ere(seq![c] + rest) == seq!['\\', c] + bre_to_ere(rest)
        },
        (c == '<' || c == '>') ==> bre_to_ere(seq!['\\', c] + rest) == seq!['\\', 'b'] + bre_to_ere(rest),
        !(c == '(' || c == ')' || c == '{' || c == '}' || c == '+' || c == '?' || c == '|' || c == '\\') ==>
            bre_to_ere(seq![c] + rest) == seq![c] + bre_to_ere(rest),
{
    let a = seq!['\\', c] + rest;
    assert(a[0] == '\\' && a[1] == c);
    assert(a.skip(2) =~= rest);
    let b = seq![c] + rest;
    assert(b[0] == c);
    assert(b.skip(1) =~= rest);
}

/// Writes a basic regular expression as an extended one.
pub fn convert_bre_to_ere(pattern: &str) -> (r: String)
    ensures
        r@ == bre_to_ere(pattern@),
{
    let chars = chars_of(pattern);
    let mut result = String::new();
    let mut i: usize = 0;
    proof {
        assert(chars@.skip(0) =~= chars@);
        assert(result@ + bre_to_ere(chars@) =~= bre_to_ere(chars@));
    }
    while i < chars.len()
        invariant
            i <= chars.len(),
            bre_to_ere(chars@) == result@ + bre_to_ere(chars@.skip(i as int)),
        decreases chars.len() - i,
    {
        let ghost rest = chars@.skip(i as int);
        let c = chars[i];
        if c == '\\' && i + 1 < chars.len() {
            let d = chars[i + 1];
            proof {
                assert(rest.skip(2) =~= chars@.skip(i + 2));
                assert(rest[1] == d);
            }
            if d == '(' || d == ')' || d == '{' || d == '}' || d == '+' || d == '?' || d == '|' {
                push_char(&mut result, d);
                proof {
                    assert(bre_to_ere(rest) == seq![d] + bre_to_ere(chars@.skip(i + 2)));
                }
            } else if d == '<' || d == '>' {
                push_char(&mut result, '\\');
                push_char(&mut result, 'b');
                proof {
                    assert(bre_to_ere(rest) == seq!['\\', 'b'] + bre_to_ere(chars@.skip(i + 2)));
                }
            } else {
                push_char(&mut result, c);
                push_char(&mut result, d);
                proof {
                    assert(bre_to_ere(rest) == seq!['\\', d] + bre_to_ere(chars@.skip(i + 2)));
                }
            }
            i += 2;
        } else {
            proof {
                assert(rest.skip(1) =~= chars@.skip(i + 1));
            }
            if c == '(' || c == ')' || c == '{' || c == '}' || c == '+' || c == '?' || c == '|' {
                push_char(&mut result, '\\');
                push_char(&mut result, c);
                proof {
                    assert(bre_to_ere(rest) == seq!['\\', c] + bre_to_ere(chars@.skip(i + 1)));
                }
            } else {
                push_char(&mut result, c);
                proof {
                    assert(bre_to_ere(rest) == seq![c] + bre_to_ere(chars@.skip(i + 1)));
                }
            }
            i += 1;
        }
    }
    proof {
        assert(chars@.skip(chars.len() as int) =~= Seq::<char>::empty());
    }
    result
}

} // verus!
