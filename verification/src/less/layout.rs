//! How `less` lays lines out: tabs expanded, long lines wrapped or cut,
//! runs of blank lines squeezed.
use vstd::prelude::*;
use crate::text::{chars_of, string_of, push_char};
use crate::find::expression::strings_view;

verus! {

/// The display width that the `unicode-width` crate gives a character, a
/// function of the character alone.
pub uninterp spec fn unicode_width_of(c: char) -> Option<usize>;

/// `UnicodeWidthChar::width` of the `unicode-width` crate: the columns a
/// character takes, `None` for a control character. Its source gives
/// printable ASCII one column, the C0 and C1 controls none, and no
/// character more than three; the rest of its tables is left unsaid.
#[verifier::external_body]
fn unicode_char_width(c: char) -> (r: Option<usize>)
    ensures
        r == unicode_width_of(c),
        0x20 <= (c as u32) < 0x7F ==> r == Some(1usize),
        (c as u32) < 0x20 || (0x7F <= (c as u32) && (c as u32) < 0xA0) ==> r is None,
        match r {
            Some(w) => w <= 3,
            None => true,
        },
{
    unicode_width::UnicodeWidthChar::width(c)
}

/// The columns a character takes on the screen; none for a control.
pub open spec fn char_width_spec(c: char) -> nat {
    match unicode_width_of(c) {
        Some(w) => w as nat,
        None => 0,
    }
}

/// The columns a character takes on the screen.
pub fn char_width(c: char) -> (r: usize)
    ensures
        r == char_width_spec(c),
        r <= 3,
{
    match unicode_char_width(c) {
        Some(w) => w,
        None => 0,
    }
}

/// `n` spaces.
pub open spec fn spaces(n: int) -> Seq<char> {
    Seq::new(if n < 0 { 0 } else { n as nat }, |i: int| ' ')
}

/// The text from `i` on with its tabs expanded, `m` being the column
/// reached so far taken modulo `tab`: a tab fills up to the next multiple
/// of `tab`, another character takes its width.
pub open spec fn expand_from(s: Seq<char>, i: int, m: int, tab: int) -> Seq<char>
    decreases s.len() - i,
{
    if i < 0 || i >= s.len() {
        Seq::empty()
    } else if s[i] == '\t' {
        spaces(tab - m) + expand_from(s, i + 1, 0, tab)
    } else {
        seq![s[i]] + expand_from(s, i + 1, (m + char_width_spec(s[i])) % tab, tab)
    }
}

/// A line with its tabs expanded to stops every `tab` columns.
pub open spec fn expand_tabs_spec(s: Seq<char>, tab: int) -> Seq<char> {
    expand_from(s, 0, 0, tab)
}

/// The column after a character of width `w` from column `m` (modulo `tab`).
fn next_column(m: usize, w: usize, tab: usize) -> (r: usize)
    requires
        tab > 0,
        m < tab,
    ensures
        r == (m + w) % (tab as int),
        r < tab,
{
    let w2 = w % tab;
    proof {
        vstd::arithmetic::div_mod::lemma_add_mod_noop(m as int, w as int, tab as int);
        vstd::arithmetic::div_mod::lemma_small_mod(m as nat, tab as nat);
    }
    if w2 >= tab - m {
        let r = w2 - (tab - m);
        assert((m + w2) % (tab as int) == m + w2 - tab) by (nonlinear_arith)
            requires tab <= m + w2, m + w2 < 2 * tab, tab > 0;
        r
    } else {
        proof {
            vstd::arithmetic::div_mod::lemma_small_mod((m + w2) as nat, tab as nat);
        }
        m + w2
    }
}

/// A line with its tabs expanded to stops every `tab` columns.
pub fn expand_tabs(s: &str, tab: usize) -> (r: String)
    requires
        tab > 0,
    ensures
        r@ == expand_tabs_spec(s@, tab as int),
{
    let v = chars_of(s);
    let mut out = String::new();
    let mut m: usize = 0;
    let mut i: usize = 0;
    while i < v.len()
        invariant
            i <= v.len(),
            v@ == s@,
            tab > 0,
            m < tab,
            out@ + expand_from(v@, i as int, m as int, tab as int) == expand_from(v@, 0, 0, tab as int),
        decreases v.len() - i,
    {
        let ghost before = out@;
        let c = v[i];
        if c == '\t' {
            let n = tab - m;
            let mut k: usize = 0;
            while k < n
                invariant
                    k <= n,
                    out@ == before + spaces(k as int),
                decreases n - k,
            {
                push_char(&mut out, ' ');
                assert(out@ =~= before + spaces(k + 1));
                k += 1;
            }
            m = 0;
            proof {
                assert(before + expand_from(v@, i as int, (tab - n) as int, tab as int)
                    =~= out@ + expand_from(v@, i + 1, 0, tab as int));
            }
        } else {
            push_char(&mut out, c);
            let w = char_width(c);
            let ghost m0 = m;
            m = next_column(m, w, tab);
            proof {
                assert(before + expand_from(v@, i as int, m0 as int, tab as int)
                    =~= out@ + expand_from(v@, i + 1, m as int, tab as int));
            }
        }
        i += 1;
    }
    proof {
        assert(out@ + Seq::<char>::empty() =~= out@);
    }
    out
}

/// The pieces of a line cut at `width` columns from `i` on: `done` the
/// pieces so far, `cur` the piece being filled and `cw` its width. A
/// character that would go past the width starts a new piece, even when the
/// current one is empty; an empty last piece is kept only when it is the
/// only one.
pub open spec fn wrap_from(line: Seq<char>, i: int, done: Seq<Seq<char>>, cur: Seq<char>, cw: int, width: int) -> Seq<Seq<char>>
    decreases line.len() - i,
{
    if i < 0 || i >= line.len() {
        if cur.len() > 0 || done.len() == 0 { done.push(cur) } else { done }
    } else {
        let w = char_width_spec(line[i]) as int;
        if cw + w > width {
            wrap_from(line, i + 1, done.push(cur), seq![line[i]], w, width)
        } else {
            wrap_from(line, i + 1, done, cur.push(line[i]), cw + w, width)
        }
    }
}

/// A line cut into pieces of at most `width` columns (a wider character
/// alone aside); width 0 leaves it whole.
pub open spec fn wrap_line_spec(line: Seq<char>, width: int) -> Seq<Seq<char>> {
    if width == 0 { seq![line] } else { wrap_from(line, 0, Seq::empty(), Seq::empty(), 0, width) }
}

/// A line cut into pieces of at most `width` columns.
pub fn wrap_line(line: &str, width: usize) -> (r: Vec<String>)
    ensures
        strings_view(r@) == wrap_line_spec(line@, width as int),
{
    if width == 0 {
        let r = vec![String::from_str(line)];
        proof {
            assert(strings_view(r@) =~= seq![line@]);
        }
        return r;
    }
    let v = chars_of(line);
    let mut result: Vec<String> = Vec::new();
    let mut cur: Vec<char> = Vec::new();
    let mut cw: usize = 0;
    let mut i: usize = 0;
    proof {
        assert(strings_view(result@) =~= Seq::<Seq<char>>::empty());
        assert(cur@ =~= Seq::<char>::empty());
    }
    while i < v.len()
        invariant
            i <= v.len(),
            v@ == line@,
            width > 0,
            cw <= width || cw <= 3,
            wrap_from(v@, i as int, strings_view(result@), cur@, cw as int, width as int)
                == wrap_from(v@, 0, Seq::empty(), Seq::empty(), 0, width as int),
        decreases v.len() - i,
    {
        let c = v[i];
        let w = char_width(c);
        if cw > width || w > width - cw {
            let ghost before = strings_view(result@);
            result.push(string_of(&cur));
            proof {
                assert(strings_view(result@) =~= before.push(cur@));
            }
            cur = Vec::new();
            cur.push(c);
            proof {
                assert(cur@ =~= seq![c]);
            }
            cw = w;
        } else {
            cur.push(c);
            cw = cw + w;
        }
        i += 1;
    }
    if cur.len() > 0 || result.len() == 0 {
        let ghost before = strings_view(result@);
        result.push(string_of(&cur));
        proof {
            assert(strings_view(result@) =~= before.push(cur@));
        }
    }
    result
}

/// The longest start of `s` from `i` on whose width, added to `cw`, stays
/// within `width`.
pub open spec fn truncate_from(s: Seq<char>, i: int, cw: int, width: int) -> Seq<char>
    decreases s.len() - i,
{
    if i < 0 || i >= s.len() || cw + char_width_spec(s[i]) > width {
        Seq::empty()
    } else {
        seq![s[i]] + truncate_from(s, i + 1, cw + char_width_spec(s[i]), width)
    }
}

/// The longest start of `s` that fits in `width` columns.
pub fn truncate_to_width(s: &str, width: usize) -> (r: String)
    ensures
        r@ == truncate_from(s@, 0, 0, width as int),
{
    let v = chars_of(s);
    let mut out = String::new();
    let mut cw: usize = 0;
    let mut i: usize = 0;
    while i < v.len()
        invariant
            i <= v.len(),
            v@ == s@,
            cw <= width,
            out@ + truncate_from(v@, i as int, cw as int, width as int) == truncate_from(v@, 0, 0, width as int),
        decreases v.len() - i,
    {
        let w = char_width(v[i]);
        if w > width - cw {
            proof {
                assert(out@ + Seq::<char>::empty() =~= out@);
            }
            return out;
        }
        let ghost before = out@;
        push_char(&mut out, v[i]);
        proof {
            assert(before + truncate_from(v@, i as int, cw as int, width as int)
                =~= out@ + truncate_from(v@, i + 1, cw + w, width as int));
        }
        cw = cw + w;
        i += 1;
    }
    proof {
        assert(out@ + Seq::<char>::empty() =~= out@);
    }
    out
}

/// The columns a text takes.
pub open spec fn text_cols(t: Seq<char>) -> int
    decreases t.len(),
{
    if t.len() == 0 { 0 } else { char_width_spec(t[0]) + text_cols(t.skip(1)) }
}

proof fn lemma_truncate_from(s: Seq<char>, i: int, cw: int, width: int)
    requires
        0 <= i <= s.len(),
        cw <= width,
    ensures
        ({
            let r = truncate_from(s, i, cw, width);
            &&& i + r.len() <= s.len()
            &&& r =~= s.subrange(i, i + r.len())
            &&& cw + text_cols(r) <= width
            &&& (i + r.len() == s.len() || cw + text_cols(r) + char_width_spec(s[i + r.len()]) > width)
        }),
    decreases s.len() - i,
{
    let r = truncate_from(s, i, cw, width);
    if i < s.len() && cw + char_width_spec(s[i]) <= width {
        lemma_truncate_from(s, i + 1, cw + char_width_spec(s[i]), width);
        let t = truncate_from(s, i + 1, cw + char_width_spec(s[i]), width);
        assert(r == seq![s[i]] + t);
        assert(r.skip(1) =~= t);
        assert(r[0] == s[i]);
    }
}

/// `truncate_to_width` keeps the longest start of the line that fits: what
/// it keeps is a start of the line within `width` columns, and it is the
/// whole line or the next character would not fit.
pub proof fn lemma_truncate_longest(s: Seq<char>, width: int)
    requires
        0 <= width,
    ensures
        ({
            let r = truncate_from(s, 0, 0, width);
            &&& r.len() <= s.len()
            &&& r == s.take(r.len() as int)
            &&& text_cols(r) <= width
            &&& (r.len() == s.len() || text_cols(r) + char_width_spec(s[r.len() as int]) > width)
        }),
{
    lemma_truncate_from(s, 0, 0, width);
    let r = truncate_from(s, 0, 0, width);
    assert(s.subrange(0, r.len() as int) =~= s.take(r.len() as int));
}

proof fn lemma_text_cols_push(t: Seq<char>, c: char)
    ensures
        text_cols(t.push(c)) == text_cols(t) + char_width_spec(c),
    decreases t.len(),
{
    if t.len() == 0 {
        assert(t.push(c).skip(1) =~= Seq::<char>::empty());
        assert(text_cols(Seq::<char>::empty()) == 0);
        assert(t.push(c)[0] == c);
    } else {
        assert(t.push(c).skip(1) =~= t.skip(1).push(c));
        assert(t.push(c)[0] == t[0]);
        lemma_text_cols_push(t.skip(1), c);
    }
}

proof fn lemma_expand_shift(p: Seq<char>, rest: Seq<char>, i: int, m: int, tab: int)
    requires
        0 <= i,
    ensures
        expand_from(p + rest, p.len() + i, m, tab) == expand_from(rest, i, m, tab),
    decreases rest.len() - i,
{
    let s = p + rest;
    if i < rest.len() {
        assert(s[p.len() + i] == rest[i]);
        if rest[i] == '\t' {
            lemma_expand_shift(p, rest, i + 1, 0, tab);
        } else {
            lemma_expand_shift(p, rest, i + 1, (m + char_width_spec(rest[i])) % tab, tab);
        }
    }
}

proof fn lemma_expand_prefix(p: Seq<char>, rest: Seq<char>, j: int, tab: int)
    requires
        tab > 0,
        0 <= j <= p.len(),
        forall|k: int| 0 <= k < p.len() ==> p[k] != '\t',
    ensures
        expand_from(p + seq!['\t'] + rest, j, text_cols(p.take(j)) % tab, tab)
            == p.skip(j) + spaces(tab - text_cols(p) % tab) + expand_from(rest, 0, 0, tab),
    decreases p.len() - j,
{
    let s = p + seq!['\t'] + rest;
    let m = text_cols(p.take(j)) % tab;
    if j < p.len() {
        let c = p[j];
        assert(s[j] == c);
        let w = char_width_spec(c);
        assert(p.take(j + 1) =~= p.take(j).push(c));
        lemma_text_cols_push(p.take(j), c);
        vstd::arithmetic::div_mod::lemma_add_mod_noop(text_cols(p.take(j)), w as int, tab);
        vstd::arithmetic::div_mod::lemma_mod_twice(w as int, tab);
        vstd::arithmetic::div_mod::lemma_add_mod_noop(m, w as int, tab);
        vstd::arithmetic::div_mod::lemma_mod_twice(text_cols(p.take(j)), tab);
        assert((m + w) % tab == text_cols(p.take(j + 1)) % tab);
        lemma_expand_prefix(p, rest, j + 1, tab);
        assert(p.skip(j) =~= seq![c] + p.skip(j + 1));
        assert(seq![c] + (p.skip(j + 1) + spaces(tab - text_cols(p) % tab) + expand_from(rest, 0, 0, tab))
            =~= p.skip(j) + spaces(tab - text_cols(p) % tab) + expand_from(rest, 0, 0, tab));
    } else {
        assert(p.take(j) =~= p);
        assert(s[j] == '\t');
        lemma_expand_shift(p + seq!['\t'], rest, 0, 0, tab);
        assert(p + seq!['\t'] + rest =~= (p + seq!['\t']) + rest);
        assert(p.skip(j) =~= Seq::<char>::empty());
        assert(Seq::<char>::empty() + spaces(tab - text_cols(p) % tab) + expand_from(rest, 0, 0, tab)
            =~= spaces(tab - text_cols(p) % tab) + expand_from(rest, 0, 0, tab));
    }
}

/// Tab expansion: a tab after text without tabs fills up to the next
/// multiple of `tab` columns (a full `tab` when that text ends on a stop),
/// and the rest is expanded from a stop.
pub proof fn lemma_expand_tab_stop(p: Seq<char>, rest: Seq<char>, tab: int)
    requires
        tab > 0,
        forall|k: int| 0 <= k < p.len() ==> p[k] != '\t',
    ensures
        expand_tabs_spec(p + seq!['\t'] + rest, tab) == p + spaces(tab - text_cols(p) % tab) + expand_tabs_spec(rest, tab),
        (text_cols(p) + (tab - text_cols(p) % tab)) % tab == 0,
        0 < tab - text_cols(p) % tab <= tab,
{
    assert(p.take(0) =~= Seq::<char>::empty());
    assert(text_cols(Seq::<char>::empty()) == 0);
    assert(0int % tab == 0) by (nonlinear_arith) requires tab > 0;
    lemma_expand_prefix(p, rest, 0, tab);
    assert(p.skip(0) =~= p);
    vstd::arithmetic::div_mod::lemma_fundamental_div_mod(text_cols(p), tab);
    vstd::arithmetic::div_mod::lemma_mod_bound(text_cols(p), tab);
    let q = text_cols(p) / tab;
    assert(text_cols(p) + (tab - text_cols(p) % tab) == (q + 1) * tab) by (nonlinear_arith)
        requires text_cols(p) == tab * q + text_cols(p) % tab;
    vstd::arithmetic::div_mod::lemma_mod_multiples_basic(q + 1, tab);
}

/// A white-space character as `char::is_whitespace` has it (Unicode's
/// White_Space property).
pub open spec fn is_space(c: char) -> bool {
    let u = c as u32;
    (9 <= u && u <= 13) || u == 32 || u == 0x85 || u == 0xA0 || u == 0x1680 || (0x2000 <= u && u <= 0x200A)
        || u == 0x2028 || u == 0x2029 || u == 0x202F || u == 0x205F || u == 0x3000
}

/// Whether a character is white space.
pub fn is_space_char(c: char) -> (r: bool)
    ensures
        r == is_space(c),
{
    let u = c as u32;
    (9 <= u && u <= 13) || u == 32 || u == 0x85 || u == 0xA0 || u == 0x1680 || (0x2000 <= u && u <= 0x200A)
        || u == 0x2028 || u == 0x2029 || u == 0x202F || u == 0x205F || u == 0x3000
}

/// A line with nothing but white space in it.
pub open spec fn is_blank(s: Seq<char>) -> bool {
    forall|i: int| 0 <= i < s.len() ==> is_space(#[trigger] s[i])
}

/// Whether a line is blank.
pub fn is_blank_line(s: &str) -> (r: bool)
    ensures
        r == is_blank(s@),
{
    let v = chars_of(s);
    let mut i: usize = 0;
    while i < v.len()
        invariant
            i <= v.len(),
            v@ == s@,
            forall|j: int| 0 <= j < i ==> is_space(#[trigger] v@[j]),
        decreases v.len() - i,
    {
        if !is_space_char(v[i]) {
            return false;
        }
        i += 1;
    }
    true
}

/// The lines from `k` on without a blank line right after a blank one;
/// `prev` tells whether the line before `k` was blank.
pub open spec fn squeeze_from(lines: Seq<Seq<char>>, k: int, prev: bool) -> Seq<Seq<char>>
    decreases lines.len() - k,
{
    if k < 0 || k >= lines.len() {
        Seq::empty()
    } else if is_blank(lines[k]) && prev {
        squeeze_from(lines, k + 1, true)
    } else {
        seq![lines[k]] + squeeze_from(lines, k + 1, is_blank(lines[k]))
    }
}

/// `-s`: each run of blank lines becomes one.
pub fn squeeze_blank_lines(lines: &[String]) -> (r: Vec<String>)
    ensures
        strings_view(r@) == squeeze_from(strings_view(lines@), 0, false),
{
    let ghost lv = strings_view(lines@);
    let mut r: Vec<String> = Vec::new();
    let mut prev = false;
    let mut k: usize = 0;
    proof {
        assert(strings_view(r@) =~= Seq::<Seq<char>>::empty());
    }
    while k < lines.len()
        invariant
            k <= lines.len(),
            lv == strings_view(lines@),
            strings_view(r@) + squeeze_from(lv, k as int, prev) == squeeze_from(lv, 0, false),
        decreases lines.len() - k,
    {
        assert(lv[k as int] == lines@[k as int]@);
        let blank = is_blank_line(lines[k].as_str());
        let ghost before = strings_view(r@);
        if !(blank && prev) {
            r.push(lines[k].clone());
            proof {
                assert(strings_view(r@) =~= before.push(lv[k as int]));
                assert(before + squeeze_from(lv, k as int, prev) =~= strings_view(r@) + squeeze_from(lv, k + 1, blank));
            }
        }
        prev = blank;
        k += 1;
    }
    proof {
        assert(strings_view(r@) + Seq::<Seq<char>>::empty() =~= strings_view(r@));
    }
    r
}

} // verus!

verus! {

/// The pieces put back together.
pub open spec fn flatten(ps: Seq<Seq<char>>) -> Seq<char>
    decreases ps.len(),
{
    if ps.len() == 0 { Seq::empty() } else { flatten(ps.drop_last()) + ps.last() }
}

proof fn lemma_flatten_push(ps: Seq<Seq<char>>, p: Seq<char>)
    ensures
        flatten(ps.push(p)) == flatten(ps) + p,
{
    assert(ps.push(p).drop_last() =~= ps);
}

proof fn lemma_wrap_from_keeps(line: Seq<char>, i: int, done: Seq<Seq<char>>, cur: Seq<char>, cw: int, width: int)
    requires
        0 <= i <= line.len(),
    ensures
        flatten(wrap_from(line, i, done, cur, cw, width)) == flatten(done) + cur + line.skip(i),
    decreases line.len() - i,
{
    if i >= line.len() {
        assert(line.skip(i) =~= Seq::<char>::empty());
        if cur.len() > 0 || done.len() == 0 {
            lemma_flatten_push(done, cur);
        } else {
            assert(cur =~= Seq::<char>::empty());
        }
        assert(flatten(done) + cur + line.skip(i) =~= flatten(done) + cur);
    } else {
        let w = char_width_spec(line[i]) as int;
        if cw + w > width {
            lemma_wrap_from_keeps(line, i + 1, done.push(cur), seq![line[i]], w, width);
            lemma_flatten_push(done, cur);
            assert(flatten(done) + cur + seq![line[i]] + line.skip(i + 1) =~= flatten(done) + cur + line.skip(i));
        } else {
            lemma_wrap_from_keeps(line, i + 1, done, cur.push(line[i]), cw + w, width);
            assert(flatten(done) + cur.push(line[i]) + line.skip(i + 1) =~= flatten(done) + cur + line.skip(i));
        }
    }
}

/// Wrapping loses and adds nothing: the pieces of a line, put back
/// together, are the line.
pub proof fn lemma_wrap_keeps_text(line: Seq<char>, width: int)
    ensures
        flatten(wrap_line_spec(line, width)) == line,
{
    if width == 0 {
        lemma_flatten_push(Seq::empty(), line);
        assert(Seq::<Seq<char>>::empty().push(line) =~= seq![line]);
        assert(flatten(Seq::<Seq<char>>::empty()) + line =~= line);
    } else {
        lemma_wrap_from_keeps(line, 0, Seq::empty(), Seq::empty(), 0, width);
        assert(line.skip(0) =~= line);
        assert(flatten(Seq::<Seq<char>>::empty()) + Seq::<char>::empty() + line =~= line);
    }
}

} // verus!
