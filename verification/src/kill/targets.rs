//! The choice of the processes that the operands of `kill` name, and the
//! texts of its signal listings.
use vstd::prelude::*;
use crate::text::{chars_of, str_eq, parse_i32, parse_int_spec, to_lowercase, lowercase_of, to_uppercase, uppercase_of,
    push_chars, decimal, decimal_string, join3, concat};
use crate::find::expression::strings_view;
use crate::join::{text_less, lemma_text_less_total};
use crate::kill::{signal_name, signal_name_spec, signal_number, signal_number_spec, strip_sig, strip_all_prefix,
    int_text, i32_text};
use vstd::utf8::encode_utf8;

verus! {

/// Whether an operand is a pattern: it holds `*`, `?` or `[`.
pub open spec fn is_glob_pattern_spec(s: Seq<char>) -> bool {
    s.contains('*') || s.contains('?') || s.contains('[')
}

/// Whether an operand is a pattern.
pub fn is_glob_pattern(s: &str) -> (r: bool)
    ensures
        r == is_glob_pattern_spec(s@),
{
    let v = chars_of(s);
    let mut i: usize = 0;
    while i < v.len()
        invariant
            i <= v.len(),
            v@ == s@,
            forall|j: int| 0 <= j < i ==> v@[j] != '*' && v@[j] != '?' && v@[j] != '[',
        decreases v.len() - i,
    {
        if v[i] == '*' || v[i] == '?' || v[i] == '[' {
            assert(s@.contains(v@[i as int]));
            return true;
        }
        i += 1;
    }
    false
}

/// Whether the bytes of `name` from `n` on match the pattern from `p` on:
/// `?` takes any one byte, `*` any run of bytes (none included), every
/// other byte itself, and the whole rest of the name must be taken.
pub open spec fn glob_at(name: Seq<u8>, pat: Seq<u8>, n: int, p: int) -> bool
    decreases pat.len() - p, name.len() - n,
{
    if p < 0 || n < 0 || n > name.len() {
        false
    } else if p >= pat.len() {
        n == name.len()
    } else if pat[p] == 42u8 {
        glob_at(name, pat, n, p + 1) || (n < name.len() && glob_at(name, pat, n + 1, p))
    } else {
        n < name.len() && (pat[p] == 63u8 || pat[p] == name[n]) && glob_at(name, pat, n + 1, p + 1)
    }
}

/// Whether the bytes `name` match the pattern `pat` as a whole.
pub open spec fn glob_match_spec(name: Seq<u8>, pat: Seq<u8>) -> bool {
    glob_at(name, pat, 0, 0)
}

/// Whether the bytes `name` match the pattern `pat` as a whole: `?` takes
/// any one byte, `*` any run of bytes, every other byte itself.
pub fn glob_match(name: &[u8], pattern: &[u8]) -> (r: bool)
    ensures
        r == glob_match_spec(name@, pattern@),
{
    let len = name.len();
    // `row[n]` tells whether the name from `n` matches the pattern from `p`.
    let mut row: Vec<bool> = Vec::new();
    let mut k: usize = 0;
    while k < len
        invariant
            len == name.len(),
            k <= len,
            row@.len() == k,
            forall|j: int| 0 <= j < k ==> row@[j] == (j == len),
        decreases len - k,
    {
        row.push(false);
        k += 1;
    }
    row.push(true);
    proof {
        assert forall|j: int| 0 <= j <= len implies row@[j] == glob_at(name@, pattern@, j, pattern@.len() as int) by {}
    }
    let mut p: usize = pattern.len();
    while p > 0
        invariant
            len == name.len(),
            p <= pattern.len(),
            row@.len() == len + 1,
            forall|j: int| 0 <= j <= len ==> row@[j] == glob_at(name@, pattern@, j, p as int),
        decreases p,
    {
        let q = p - 1;
        let mut next: Vec<bool> = Vec::new();
        let mut j: usize = 0;
        while j < len
            invariant
                len == name.len(),
                q < pattern.len(),
                j <= len,
                next@.len() == j,
                row@.len() == len + 1,
                forall|i: int| 0 <= i <= len ==> row@[i] == glob_at(name@, pattern@, i, q + 1),
                pattern@[q as int] != 42u8 ==> forall|i: int| 0 <= i < j ==> next@[i] == glob_at(name@, pattern@, i, q as int),
            decreases len - j,
        {
            let v = if pattern[q] == 42u8 {
                false
            } else {
                (pattern[q] == 63u8 || pattern[q] == name[j]) && row[j + 1]
            };
            next.push(v);
            j += 1;
        }
        next.push(false);
        if pattern[q] == 42u8 {
            // A star: from the end of the name backwards.
            let v_end = row[len];
            next.set(len, v_end);
            let mut i: usize = len;
            while i > 0
                invariant
                    len == name.len(),
                    q < pattern.len(),
                    pattern@[q as int] == 42u8,
                    i <= len,
                    next@.len() == len + 1,
                    row@.len() == len + 1,
                    forall|t: int| 0 <= t <= len ==> row@[t] == glob_at(name@, pattern@, t, q + 1),
                    forall|t: int| i <= t <= len ==> next@[t] == glob_at(name@, pattern@, t, q as int),
                decreases i,
            {
                let t = i - 1;
                let v = row[t] || next[t + 1];
                next.set(t, v);
                i -= 1;
            }
        }
        row = next;
        p = q;
    }
    row[0]
}

/// Whether a process name matches an operand's pattern, both in lower case.
pub open spec fn name_matches(proc_name: Seq<char>, pattern: Seq<char>) -> bool {
    glob_match_spec(encode_utf8(lowercase_of(proc_name)), encode_utf8(lowercase_of(pattern)))
}

/// The running processes from `j` on whose names match `pattern`.
pub open spec fn matching_from(running: Seq<Seq<char>>, pattern: Seq<char>, j: int) -> Seq<Seq<char>>
    decreases running.len() - j,
{
    if j < 0 || j >= running.len() {
        Seq::empty()
    } else if name_matches(running[j], pattern) {
        seq![running[j]] + matching_from(running, pattern, j + 1)
    } else {
        matching_from(running, pattern, j + 1)
    }
}

/// What one operand names: a process number stays as it is, a pattern
/// names the running processes that match it (case aside), another name
/// stays as it is.
pub open spec fn operand_names(t: Seq<char>, running: Seq<Seq<char>>) -> Seq<Seq<char>> {
    if parse_int_spec(t, i32::MIN as int, i32::MAX as int) is Some {
        seq![t]
    } else if is_glob_pattern_spec(t) {
        matching_from(running, t, 0)
    } else {
        seq![t]
    }
}

/// What the first `k` operands name, in order.
pub open spec fn named_from(targets: Seq<Seq<char>>, running: Seq<Seq<char>>, k: int) -> Seq<Seq<char>>
    decreases k,
{
    if k <= 0 {
        Seq::empty()
    } else {
        named_from(targets, running, k - 1) + operand_names(targets[k - 1], running)
    }
}

/// `s` is in increasing order, each item before the next.
pub open spec fn increasing(s: Seq<Seq<char>>) -> bool {
    forall|i: int| 0 <= i < s.len() - 1 ==> text_less(#[trigger] s[i], s[i + 1])
}

/// No item of `s` comes twice.
pub open spec fn distinct(s: Seq<Seq<char>>) -> bool {
    forall|i: int, j: int| 0 <= i < j < s.len() ==> s[i] != s[j]
}

/// Whether `pattern` (in lower case) matches `proc_name` (in lower case).
fn matches_glob_pattern(proc_name: &str, pattern: &str) -> (r: bool)
    ensures
        r == name_matches(proc_name@, pattern@),
{
    let a = to_lowercase(proc_name);
    let b = to_lowercase(pattern);
    glob_match(a.as_str().as_bytes(), b.as_str().as_bytes())
}

/// Whether `x` sorts before item `p` of `v`.
fn less_than_item(x: &Vec<char>, v: &Vec<String>, p: usize) -> (r: bool)
    requires
        p < v.len(),
    ensures
        r == text_less(x@, v@[p as int]@),
{
    let e = chars_of(v[p].as_str());
    crate::join::text_less_exec(x, &e)
}

/// Puts `x` into the increasing list `v` of distinct items, unless it is
/// there already.
fn insert_sorted(v: &mut Vec<String>, x: String)
    requires
        increasing(strings_view(old(v)@)),
        distinct(strings_view(old(v)@)),
    ensures
        increasing(strings_view(final(v)@)),
        distinct(strings_view(final(v)@)),
        forall|s: Seq<char>| strings_view(final(v)@).contains(s) <==> (strings_view(old(v)@).contains(s) || s == x@),
{
    let ghost old_v = strings_view(v@);
    let mut k: usize = 0;
    while k < v.len()
        invariant
            k <= v.len(),
            old_v == strings_view(v@),
            old_v == strings_view(old(v)@),
            increasing(old_v),
            distinct(old_v),
            forall|j: int| 0 <= j < k ==> old_v[j] != x@,
        decreases v.len() - k,
    {
        assert(old_v[k as int] == v@[k as int]@);
        if str_eq(v[k].as_str(), x.as_str()) {
            assert(old_v.contains(x@));
            return;
        }
        k += 1;
    }
    assert(!old_v.contains(x@));
    let xv = chars_of(x.as_str());
    let mut p: usize = 0;
    while p < v.len() && !less_than_item(&xv, v, p)
        invariant
            p <= v.len(),
            old_v == strings_view(v@),
            !old_v.contains(x@),
            xv@ == x@,
            forall|j: int| 0 <= j < p ==> text_less(old_v[j], x@),
        decreases v.len() - p,
    {
        proof {
            lemma_text_less_total(x@, old_v[p as int]);
            assert(old_v[p as int] != x@);
        }
        p += 1;
    }
    proof {
        assert(p < v.len() ==> text_less(x@, old_v[p as int]));
    }
    let ghost xs = x@;
    v.insert(p, x);
    proof {
        let nv = strings_view(v@);
        assert(nv =~= old_v.insert(p as int, xs));
        assert forall|i: int| 0 <= i < nv.len() - 1 implies text_less(#[trigger] nv[i], nv[i + 1]) by {
            if i < p - 1 {
                assert(nv[i] == old_v[i] && nv[i + 1] == old_v[i + 1]);
            } else if i == p - 1 {
            } else if i == p {
            } else {
                assert(nv[i] == old_v[i - 1] && nv[i + 1] == old_v[i]);
            }
        }
        assert forall|i: int, j: int| 0 <= i < j < nv.len() implies nv[i] != nv[j] by {
            if i < p && j < p {
            } else if i < p && j == p {
                assert(old_v.contains(nv[i]));
            } else if i == p {
                assert(nv[j] == old_v[j - 1]);
                assert(old_v.contains(nv[j]));
            } else if i < p {
                assert(nv[j] == old_v[j - 1]);
            } else {
                assert(nv[i] == old_v[i - 1] && nv[j] == old_v[j - 1]);
            }
        }
        assert forall|s: Seq<char>| nv.contains(s) <==> (old_v.contains(s) || s == xs) by {
            if nv.contains(s) {
                let i = choose|i: int| 0 <= i < nv.len() && nv[i] == s;
                if i < p {
                    assert(old_v[i] == s);
                } else if i > p {
                    assert(old_v[i - 1] == s);
                }
            }
            if old_v.contains(s) {
                let i = choose|i: int| 0 <= i < old_v.len() && old_v[i] == s;
                if i < p {
                    assert(nv[i] == s);
                } else {
                    assert(nv[i + 1] == s);
                }
            }
            if s == xs {
                assert(nv[p as int] == s);
            }
        }
    }
}

/// Appends the running processes whose names match `pattern`.
fn push_matching(out: &mut Vec<String>, running: &[String], pattern: &str)
    ensures
        strings_view(final(out)@) == strings_view(old(out)@) + matching_from(strings_view(running@), pattern@, 0),
{
    let ghost rv = strings_view(running@);
    let ghost start = strings_view(out@);
    let mut j: usize = running.len();
    let mut found: Vec<String> = Vec::new();
    // Collect from the back so that each step puts one item before the rest.
    while j > 0
        invariant
            j <= running.len(),
            rv == strings_view(running@),
            strings_view(found@) == matching_from(rv, pattern@, j as int).reverse(),
        decreases j,
    {
        j -= 1;
        assert(rv[j as int] == running@[j as int]@);
        if matches_glob_pattern(running[j].as_str(), pattern) {
            let ghost before = strings_view(found@);
            found.push(running[j].clone());
            proof {
                assert(strings_view(found@) =~= before.push(rv[j as int]));
                assert((seq![rv[j as int]] + matching_from(rv, pattern@, j + 1)).reverse()
                    =~= matching_from(rv, pattern@, j + 1).reverse().push(rv[j as int]));
            }
        }
    }
    let mut k: usize = found.len();
    let ghost all = strings_view(found@);
    while k > 0
        invariant
            k <= found.len(),
            all == strings_view(found@),
            all == matching_from(rv, pattern@, 0).reverse(),
            strings_view(out@) == start + all.subrange(k as int, all.len() as int).reverse(),
        decreases k,
    {
        k -= 1;
        let ghost before = strings_view(out@);
        out.push(found[k].clone());
        proof {
            assert(strings_view(out@) =~= before.push(all[k as int]));
            assert(all.subrange(k as int, all.len() as int).reverse()
                =~= all.subrange(k + 1, all.len() as int).reverse().push(all[k as int]));
        }
    }
    proof {
        assert(all.subrange(0, all.len() as int) =~= all);
        assert(all.reverse() =~= matching_from(rv, pattern@, 0));
    }
}

/// The processes that the operands name, in increasing order and each
/// once: a process number stays as it is, a pattern (`*`, `?`, `[`) names
/// the processes of `running` whose names match it with case ignored, any
/// other name stays as it is.
pub fn resolve_targets(targets: &[String], running: &[String]) -> (r: Vec<String>)
    ensures
        increasing(strings_view(r@)),
        distinct(strings_view(r@)),
        forall|s: Seq<char>| strings_view(r@).contains(s)
            <==> named_from(strings_view(targets@), strings_view(running@), targets.len() as int).contains(s),
{
    let ghost tv = strings_view(targets@);
    let ghost rv = strings_view(running@);
    let mut names: Vec<String> = Vec::new();
    let mut k: usize = 0;
    proof {
        assert(strings_view(names@) =~= Seq::<Seq<char>>::empty());
    }
    while k < targets.len()
        invariant
            k <= targets.len(),
            tv == strings_view(targets@),
            rv == strings_view(running@),
            strings_view(names@) == named_from(tv, rv, k as int),
        decreases targets.len() - k,
    {
        let t = &targets[k];
        assert(tv[k as int] == t@);
        let v = chars_of(t.as_str());
        let ghost before = strings_view(names@);
        if parse_i32(&v).is_some() {
            names.push(t.clone());
            proof {
                assert(strings_view(names@) =~= before + seq![t@]);
            }
        } else if is_glob_pattern(t.as_str()) {
            push_matching(&mut names, running, t.as_str());
        } else {
            names.push(t.clone());
            proof {
                assert(strings_view(names@) =~= before + seq![t@]);
            }
        }
        k += 1;
    }
    let ghost all = strings_view(names@);
    let mut r: Vec<String> = Vec::new();
    let mut j: usize = 0;
    proof {
        assert(strings_view(r@) =~= Seq::<Seq<char>>::empty());
    }
    while j < names.len()
        invariant
            j <= names.len(),
            all == strings_view(names@),
            increasing(strings_view(r@)),
            distinct(strings_view(r@)),
            forall|s: Seq<char>| strings_view(r@).contains(s) <==> all.take(j as int).contains(s),
        decreases names.len() - j,
    {
        let ghost before = strings_view(r@);
        assert(forall|s: Seq<char>| before.contains(s) <==> all.take(j as int).contains(s));
        assert(all[j as int] == names@[j as int]@);
        insert_sorted(&mut r, names[j].clone());
        proof {
            assert forall|s: Seq<char>| strings_view(r@).contains(s) <==> all.take(j + 1).contains(s) by {
                let t1 = all.take(j + 1);
                let t0 = all.take(j as int);
                assert(t1 =~= t0.push(all[j as int]));
                assert(strings_view(r@).contains(s) == (before.contains(s) || s == all[j as int]));
                assert(before.contains(s) == t0.contains(s));
                if t1.contains(s) {
                    let i = choose|i: int| 0 <= i < t1.len() && #[trigger] t1[i] == s;
                    if i < j {
                        assert(t0[i] == s);
                    }
                }
                if t0.contains(s) {
                    let i = choose|i: int| 0 <= i < t0.len() && #[trigger] t0[i] == s;
                    assert(t1[i] == s);
                    assert(t1.contains(s));
                }
                if s == all[j as int] {
                    assert(t1[j as int] == s);
                    assert(t1.contains(s));
                }
                assert(t1.contains(s) == (t0.contains(s) || s == all[j as int]));
            }
        }
        j += 1;
    }
    proof {
        assert(all.take(names.len() as int) =~= all);
    }
    r
}

} // verus!
