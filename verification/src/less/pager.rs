//! The pager of `less` as a state machine: the lines it shows, where the
//! screen stands, and what each key does. Reading keys, drawing the screen
//! and reading files stay with the caller.
use vstd::prelude::*;
use crate::text::{chars_of, contains_text, seq_contains, to_lowercase, lowercase_of, push_char, decimal,
    decimal_string, parse_usize, parse_int_spec, all_digits};
use crate::find::expression::strings_view;
use crate::less::{Options, PromptMode};
use crate::less::layout::{expand_tabs, expand_tabs_spec, wrap_line, wrap_line_spec};

verus! {

/// One screen line: the index of the line it comes from, its text, and
/// whether it continues that line.
#[derive(Debug)]
pub struct DisplayLine {
    pub original_idx: usize,
    pub text: String,
    pub is_continuation: bool,
}

/// A screen line as values.
pub struct LineView {
    pub idx: int,
    pub text: Seq<char>,
    pub cont: bool,
}

impl View for DisplayLine {
    type V = LineView;

    open spec fn view(&self) -> LineView {
        LineView { idx: self.original_idx as int, text: self.text@, cont: self.is_continuation }
    }
}

pub open spec fn lines_view(v: Seq<DisplayLine>) -> Seq<LineView> {
    v.map_values(|d: DisplayLine| d@)
}

/// Whether line `line` passes the filter: it holds the pattern, case aside.
pub open spec fn passes(line: Seq<char>, filter: Option<Seq<char>>) -> bool {
    match filter {
        None => true,
        Some(p) => seq_contains(lowercase_of(line), lowercase_of(p)),
    }
}

/// The screen lines of line `idx`: the line itself when long lines are
/// cut, else its pieces after tab expansion, all but the first marked as
/// continuations.
pub open spec fn pieces_of(idx: int, line: Seq<char>, chop: bool, tab: int, width: int) -> Seq<LineView> {
    if chop {
        seq![LineView { idx: idx, text: line, cont: false }]
    } else {
        wrap_line_spec(expand_tabs_spec(line, tab), width).map(|i: int, p: Seq<char>| LineView { idx: idx, text: p, cont: i > 0 })
    }
}

/// The screen lines of the first `k` lines that pass the filter.
pub open spec fn display_from(lines: Seq<Seq<char>>, filter: Option<Seq<char>>, chop: bool, tab: int, width: int, k: int) -> Seq<LineView>
    decreases k,
{
    if k <= 0 {
        Seq::empty()
    } else {
        display_from(lines, filter, chop, tab, width, k - 1)
            + if passes(lines[k - 1], filter) { pieces_of(k - 1, lines[k - 1], chop, tab, width) } else { Seq::empty() }
    }
}

/// The number of decimal digits of `n`.
pub open spec fn digits(n: nat) -> nat {
    decimal(n).len()
}

/// The columns left for text: the terminal's width less the line numbers
/// (with `-N`) and one column of margin.
pub open spec fn content_width(cols: int, number: bool, nlines: nat) -> int {
    let w = if number {
        if cols >= digits(nlines) + 1 { cols - digits(nlines) - 1 } else { 0 }
    } else {
        cols
    };
    if w >= 1 { w - 1 } else { 0 }
}

/// The keys the pager knows.
#[derive(Debug, Clone, Copy, PartialEq, Eq, Structural)]
pub enum Key {
    Char(char),
    Esc,
    Enter,
    Up,
    Down,
    PageUp,
    PageDown,
    Home,
    End,
    Left,
    Right,
    Other,
}

/// What the caller does after a key: go on, quit, open the editor, follow
/// the file, read a search pattern (forward or backward), or read a filter.
#[derive(Debug, Clone, Copy, PartialEq, Eq, Structural)]
pub enum Action {
    Continue,
    Quit,
    OpenEditor,
    FollowMode,
    Search(bool),
    Filter,
}

/// The pager's state.
pub struct Pager {
    pub lines: Vec<String>,
    pub display_lines: Vec<DisplayLine>,
    pub top_line: usize,
    pub left_col: usize,
    pub term_rows: u16,
    pub term_cols: u16,
    pub opts: Options,
    pub search_pattern: Option<String>,
    pub filename: String,
    pub filepath: Option<String>,
    pub message: Option<String>,
    pub eof_count: usize,
    pub filter_pattern: Option<String>,
    pub input_buffer: String,
}

pub open spec fn opt_text(o: Option<String>) -> Option<Seq<char>> {
    match o {
        Some(s) => Some(s@),
        None => None,
    }
}

impl Pager {
    /// The screen lines that the pager's lines, filter, settings and
    /// terminal width give.
    pub open spec fn display_spec(&self) -> Seq<LineView> {
        display_from(strings_view(self.lines@), opt_text(self.filter_pattern), self.opts.chop_long,
            self.opts.tab_stop as int, content_width(self.term_cols as int, self.opts.number, self.lines.len() as nat),
            self.lines.len() as int)
    }

    /// What drawing and the keys need: the screen lines are those of the
    /// lines, tabs have a width, and there is a row for the prompt.
    pub open spec fn wf(&self) -> bool {
        &&& lines_view(self.display_lines@) == self.display_spec()
        &&& self.opts.tab_stop > 0
        &&& self.term_rows >= 1
    }

    /// The number of rows for text.
    pub open spec fn rows(&self) -> int {
        self.term_rows - 1
    }

    /// The highest top line: the last screenful.
    pub open spec fn max_top(&self) -> int {
        if self.display_lines.len() >= self.rows() { self.display_lines.len() - self.rows() } else { 0 }
    }
}

/// The number of decimal digits of `n`.
fn digit_count(n: usize) -> (r: usize)
    ensures
        r == digits(n as nat),
{
    let s = decimal_string(n as u64);
    let v = chars_of(s.as_str());
    v.len()
}

/// The columns left for text.
pub fn get_content_width(cols: u16, number: bool, nlines: usize) -> (r: usize)
    ensures
        r == content_width(cols as int, number, nlines as nat),
{
    let c = cols as usize;
    let w = if number {
        let d = digit_count(nlines);
        if c >= d && c - d >= 1 { c - d - 1 } else { 0 }
    } else {
        c
    };
    if w >= 1 { w - 1 } else { 0 }
}

/// Whether line `line` passes the filter.
fn line_passes(line: &String, filter: &Option<String>) -> (r: bool)
    ensures
        r == passes(line@, opt_text(*filter)),
{
    match filter {
        None => true,
        Some(p) => {
            let l = to_lowercase(line.as_str());
            let lp = to_lowercase(p.as_str());
            let lv = chars_of(l.as_str());
            contains_text(&lv, lp.as_str())
        },
    }
}

/// Appends the screen lines of line `idx`.
fn push_pieces(out: &mut Vec<DisplayLine>, idx: usize, line: &String, chop: bool, tab: usize, width: usize)
    requires
        tab > 0,
    ensures
        lines_view(final(out)@) == lines_view(old(out)@) + pieces_of(idx as int, line@, chop, tab as int, width as int),
{
    let ghost start = lines_view(out@);
    if chop {
        out.push(DisplayLine { original_idx: idx, text: line.clone(), is_continuation: false });
        proof {
            assert(lines_view(out@) =~= start + pieces_of(idx as int, line@, chop, tab as int, width as int));
        }
    } else {
        let expanded = expand_tabs(line.as_str(), tab);
        let parts = wrap_line(expanded.as_str(), width);
        let ghost pv = strings_view(parts@);
        let ghost want = pieces_of(idx as int, line@, chop, tab as int, width as int);
        assert(pv == wrap_line_spec(expand_tabs_spec(line@, tab as int), width as int));
        let mut i: usize = 0;
        while i < parts.len()
            invariant
                i <= parts.len(),
                pv == strings_view(parts@),
                want == pv.map(|k: int, p: Seq<char>| LineView { idx: idx as int, text: p, cont: k > 0 }),
                lines_view(out@) == start + want.take(i as int),
            decreases parts.len() - i,
        {
            let ghost before = lines_view(out@);
            assert(pv[i as int] == parts@[i as int]@);
            out.push(DisplayLine { original_idx: idx, text: parts[i].clone(), is_continuation: i > 0 });
            proof {
                assert(want.take(i + 1) =~= want.take(i as int).push(want[i as int]));
                assert(lines_view(out@) =~= before.push(want[i as int]));
            }
            i += 1;
        }
        proof {
            assert(want.take(parts.len() as int) =~= want);
        }
    }
}

impl Pager {
    /// Builds the screen lines again from the lines, the filter, the
    /// settings and the terminal's width.
    pub fn rebuild_display_lines(&mut self)
        requires
            old(self).opts.tab_stop > 0,
        ensures
            lines_view(final(self).display_lines@) == final(self).display_spec(),
            final(self).lines == old(self).lines,
            final(self).top_line == old(self).top_line,
            final(self).left_col == old(self).left_col,
            final(self).term_rows == old(self).term_rows,
            final(self).term_cols == old(self).term_cols,
            final(self).opts == old(self).opts,
            final(self).search_pattern == old(self).search_pattern,
            final(self).filename == old(self).filename,
            final(self).filepath == old(self).filepath,
            final(self).message == old(self).message,
            final(self).eof_count == old(self).eof_count,
            final(self).filter_pattern == old(self).filter_pattern,
            final(self).input_buffer == old(self).input_buffer,
    {
        let width = get_content_width(self.term_cols, self.opts.number, self.lines.len());
        let mut out: Vec<DisplayLine> = Vec::new();
        let ghost lv = strings_view(self.lines@);
        let ghost filter = opt_text(self.filter_pattern);
        let mut k: usize = 0;
        proof {
            assert(lines_view(out@) =~= Seq::<LineView>::empty());
        }
        while k < self.lines.len()
            invariant
                k <= self.lines.len(),
                self.opts.tab_stop > 0,
                lv == strings_view(self.lines@),
                filter == opt_text(self.filter_pattern),
                width == content_width(self.term_cols as int, self.opts.number, self.lines.len() as nat),
                lines_view(out@) == display_from(lv, filter, self.opts.chop_long, self.opts.tab_stop as int, width as int, k as int),
            decreases self.lines.len() - k,
        {
            assert(lv[k as int] == self.lines@[k as int]@);
            if line_passes(&self.lines[k], &self.filter_pattern) {
                push_pieces(&mut out, k, &self.lines[k], self.opts.chop_long, self.opts.tab_stop, width);
            } else {
                proof {
                    assert(lines_view(out@) + Seq::<LineView>::empty() =~= lines_view(out@));
                }
            }
            k += 1;
        }
        self.display_lines = out;
    }
}

} // verus!

verus! {

/// `char::is_uppercase`, a function of the character alone.
pub uninterp spec fn uppercase_char(c: char) -> bool;

/// `char::is_uppercase` of std: whether a character has Unicode's
/// Uppercase property. Nothing more of the property is stated.
#[verifier::external_body]
fn char_is_uppercase(c: char) -> (r: bool)
    ensures
        r == uppercase_char(c),
{
    c.is_uppercase()
}

/// Whether a text holds an upper-case character.
pub open spec fn has_upper(s: Seq<char>) -> bool {
    exists|i: int| 0 <= i < s.len() && uppercase_char(#[trigger] s[i])
}

/// The text a search looks for, and whether lines are lowered first:
/// `-I` ignores case unless the pattern has a capital, `-i` always.
pub open spec fn search_text(p: Seq<char>, smart: bool, ignore: bool) -> (Seq<char>, bool) {
    if smart {
        if has_upper(p) { (p, false) } else { (lowercase_of(p), true) }
    } else if ignore {
        (lowercase_of(p), true)
    } else {
        (p, false)
    }
}

/// Whether a screen line holds the searched text.
pub open spec fn line_hit(t: Seq<char>, spat: Seq<char>, lower: bool) -> bool {
    seq_contains(if lower { lowercase_of(t) } else { t }, spat)
}

/// The first screen line from `i` on that holds the text.
pub open spec fn next_hit(dl: Seq<LineView>, i: int, spat: Seq<char>, lower: bool) -> Option<int>
    decreases dl.len() - i,
{
    if i < 0 || i >= dl.len() {
        None
    } else if line_hit(dl[i].text, spat, lower) {
        Some(i)
    } else {
        next_hit(dl, i + 1, spat, lower)
    }
}

/// The last screen line before `i` that holds the text.
pub open spec fn prev_hit(dl: Seq<LineView>, i: int, spat: Seq<char>, lower: bool) -> Option<int>
    decreases i,
{
    if i <= 0 || i > dl.len() {
        None
    } else if line_hit(dl[i - 1].text, spat, lower) {
        Some(i - 1)
    } else {
        prev_hit(dl, i - 1, spat, lower)
    }
}

/// The top line that shows the last screenful.
pub open spec fn end_top(len: int, rows: int) -> int {
    if len >= rows { len - rows } else { 0 }
}

/// The first screen line from `i` on that starts a line numbered `target`
/// or later (counting from 0).
pub open spec fn line_start_from(dl: Seq<LineView>, target: int, i: int) -> Option<int>
    decreases dl.len() - i,
{
    if i < 0 || i >= dl.len() {
        None
    } else if dl[i].idx >= target && !dl[i].cont {
        Some(i)
    } else {
        line_start_from(dl, target, i + 1)
    }
}

/// Where `NG` puts the top: at the start of line `n` (from 1), or at the
/// end when there is no such line.
pub open spec fn goto_line_top(dl: Seq<LineView>, n: int, rows: int) -> int {
    match line_start_from(dl, if n >= 1 { n - 1 } else { 0 }, 0) {
        Some(i) => i,
        None => end_top(dl.len() as int, rows),
    }
}

/// What a search does to the top line and the message: the top goes to
/// the next (or previous) screen line that holds the pattern, else the
/// message says so.
pub open spec fn find_spec(dl: Seq<LineView>, top: int, rows: int, pattern: Option<Seq<char>>, smart: bool, ignore: bool,
    forward: bool, message: Option<Seq<char>>) -> (int, Option<Seq<char>>)
{
    match pattern {
        None => (top, Some("No previous search pattern"@)),
        Some(p) => {
            let (spat, lower) = search_text(p, smart, ignore);
            if forward {
                match next_hit(dl, top + 1, spat, lower) {
                    Some(i) => (if i <= end_top(dl.len() as int, rows) { i } else { end_top(dl.len() as int, rows) }, message),
                    None => (top, Some("Pattern not found"@)),
                }
            } else {
                match prev_hit(dl, top, spat, lower) {
                    Some(i) => (i, message),
                    None => (top, Some("Pattern not found"@)),
                }
            }
        },
    }
}

impl Pager {
    /// The top line at the last screenful.
    pub fn goto_end(&mut self)
        requires
            old(self).term_rows >= 1,
        ensures
            final(self).top_line == end_top(old(self).display_lines.len() as int, old(self).rows()),
            final(self).frame(old(self)),
            final(self).eof_count == old(self).eof_count,
    {
        let rows = (self.term_rows - 1) as usize;
        self.top_line = if self.display_lines.len() >= rows { self.display_lines.len() - rows } else { 0 };
    }

    /// Puts the top at the start of line `n` (from 1), or at the end.
    pub fn goto_line(&mut self, n: usize)
        requires
            old(self).term_rows >= 1,
        ensures
            final(self).top_line == goto_line_top(lines_view(old(self).display_lines@), n as int, old(self).rows()),
            final(self).frame(old(self)),
            final(self).eof_count == old(self).eof_count,
    {
        let ghost dl = lines_view(self.display_lines@);
        let target = if n >= 1 { n - 1 } else { 0 };
        let mut i: usize = 0;
        while i < self.display_lines.len()
            invariant
                i <= self.display_lines.len(),
                *self == *old(self),
                target == if n >= 1 { n - 1 } else { 0 },
                dl == lines_view(self.display_lines@),
                line_start_from(dl, target as int, 0) == line_start_from(dl, target as int, i as int),
            decreases self.display_lines.len() - i,
        {
            assert(dl[i as int] == self.display_lines@[i as int]@);
            if self.display_lines[i].original_idx >= target && !self.display_lines[i].is_continuation {
                assert(line_start_from(dl, target as int, i as int) == Some(i as int));
                assert(goto_line_top(dl, n as int, old(self).rows()) == i);
                self.top_line = i;
                return;
            }
            i += 1;
        }
        self.goto_end();
    }

    /// Counts a move that lands on the last screenful.
    pub fn check_eof(&mut self)
        requires
            old(self).term_rows >= 1,
        ensures
            final(self).eof_count == if old(self).top_line >= end_top(old(self).display_lines.len() as int, old(self).rows()) {
                if old(self).eof_count < usize::MAX { old(self).eof_count + 1 } else { old(self).eof_count as int }
            } else {
                old(self).eof_count as int
            },
            final(self).top_line == old(self).top_line,
            final(self).frame(old(self)),
    {
        let rows = (self.term_rows - 1) as usize;
        let end = if self.display_lines.len() >= rows { self.display_lines.len() - rows } else { 0 };
        if self.top_line >= end {
            self.eof_count = self.eof_count.saturating_add(1);
        }
    }
}

/// Whether screen line `i` holds the searched text.
fn hit_at(dl: &Vec<DisplayLine>, i: usize, spat: &String, lower: bool) -> (r: bool)
    requires
        i < dl.len(),
    ensures
        r == line_hit(dl@[i as int]@.text, spat@, lower),
{
    let t = if lower { to_lowercase(dl[i].text.as_str()) } else { dl[i].text.clone() };
    let tv = chars_of(t.as_str());
    contains_text(&tv, spat.as_str())
}

/// Whether a text holds an upper-case character.
fn has_upper_exec(s: &String) -> (r: bool)
    ensures
        r == has_upper(s@),
{
    let v = chars_of(s.as_str());
    let mut i: usize = 0;
    while i < v.len()
        invariant
            i <= v.len(),
            v@ == s@,
            forall|j: int| 0 <= j < i ==> !uppercase_char(#[trigger] v@[j]),
        decreases v.len() - i,
    {
        if char_is_uppercase(v[i]) {
            return true;
        }
        i += 1;
    }
    false
}

impl Pager {
    /// `n` and `N`: moves to the next (or previous) screen line that holds
    /// the search pattern.
    pub fn find_next(&mut self, forward: bool)
        requires
            old(self).term_rows >= 1,
        ensures
            (final(self).top_line as int, opt_text(final(self).message)) == find_spec(lines_view(old(self).display_lines@),
                old(self).top_line as int, old(self).rows(), opt_text(old(self).search_pattern), old(self).opts.smart_case,
                old(self).opts.ignore_case, forward, opt_text(old(self).message)),
            final(self).same_document(old(self)),
            final(self).display_lines == old(self).display_lines,
            final(self).eof_count == old(self).eof_count,
            final(self).filter_pattern == old(self).filter_pattern,
            final(self).input_buffer == old(self).input_buffer,
            final(self).left_col == old(self).left_col,
    {
        let ghost dl = lines_view(self.display_lines@);
        let pattern = match &self.search_pattern {
            Some(p) => p.clone(),
            None => {
                self.message = Some(String::from_str("No previous search pattern"));
                return;
            },
        };
        let (spat, lower) = if self.opts.smart_case {
            if has_upper_exec(&pattern) { (pattern.clone(), false) } else { (to_lowercase(pattern.as_str()), true) }
        } else if self.opts.ignore_case {
            (to_lowercase(pattern.as_str()), true)
        } else {
            (pattern.clone(), false)
        };
        assert((spat@, lower) == search_text(pattern@, self.opts.smart_case, self.opts.ignore_case));
        let rows = (self.term_rows - 1) as usize;
        let n = self.display_lines.len();
        if forward {
            let mut i = self.top_line.saturating_add(1);
            proof {
                if self.top_line == usize::MAX {
                    assert(next_hit(dl, self.top_line + 1, spat@, lower) is None);
                }
            }
            while i < n
                invariant
                    n == self.display_lines.len(),
                    *self == *old(self),
                    (spat@, lower) == search_text(pattern@, self.opts.smart_case, self.opts.ignore_case),
                    old(self).search_pattern is Some && pattern@ == old(self).search_pattern->0@,
                    rows == old(self).rows(),
                    dl == lines_view(self.display_lines@),
                    forward,
                    self.top_line < usize::MAX ==> self.top_line < i,
                    self.top_line == usize::MAX ==> i == usize::MAX,
                    self.top_line < usize::MAX ==> next_hit(dl, self.top_line + 1, spat@, lower) == next_hit(dl, i as int, spat@, lower),
                decreases n - i,
            {
                assert(dl[i as int] == self.display_lines@[i as int]@);
                if hit_at(&self.display_lines, i, &spat, lower) {
                    assert(next_hit(dl, i as int, spat@, lower) == Some(i as int));
                    assert(self.top_line < usize::MAX);
                    let end = if n >= rows { n - rows } else { 0 };
                    assert(end == end_top(dl.len() as int, old(self).rows()));
                    let t = if i <= end { i } else { end };
                    assert(opt_text(old(self).search_pattern) == Some(pattern@));
                    assert(find_spec(dl, old(self).top_line as int, old(self).rows(), Some(pattern@), old(self).opts.smart_case,
                        old(self).opts.ignore_case, forward, opt_text(old(self).message)) == (t as int, opt_text(old(self).message)));
                    self.top_line = t;
                    return;
                }
                i += 1;
            }
        } else {
            let mut i = self.top_line;
            proof {
                if self.top_line > n {
                    assert(prev_hit(dl, self.top_line as int, spat@, lower) is None);
                }
            }
            while i > 0
                invariant
                    n == self.display_lines.len(),
                    *self == *old(self),
                    (spat@, lower) == search_text(pattern@, self.opts.smart_case, self.opts.ignore_case),
                    old(self).search_pattern is Some && pattern@ == old(self).search_pattern->0@,
                    dl == lines_view(self.display_lines@),
                    !forward,
                    i <= self.top_line,
                    self.top_line <= n ==> prev_hit(dl, self.top_line as int, spat@, lower) == prev_hit(dl, i as int, spat@, lower),
                    self.top_line > n ==> prev_hit(dl, self.top_line as int, spat@, lower) is None,
                decreases i,
            {
                if i <= n {
                    assert(dl[i - 1] == self.display_lines@[i - 1]@);
                    if hit_at(&self.display_lines, i - 1, &spat, lower) {
                        if self.top_line <= n {
                            assert(prev_hit(dl, i as int, spat@, lower) == Some(i - 1));
                            self.top_line = i - 1;
                            return;
                        }
                    }
                }
                i -= 1;
            }
        }
        self.message = Some(String::from_str("Pattern not found"));
    }
}

} // verus!

verus! {

/// What a key means to the pager, in the order the pager tests them.
pub enum KeyClass {
    Digit(char),
    Quit,
    Escape,
    Down,
    Up,
    PageDown,
    PageUp,
    HalfDown,
    HalfUp,
    First,
    Last,
    Right,
    Left,
    SearchForward,
    SearchBackward,
    Next,
    Previous,
    Filter,
    Info,
    Editor,
    Follow,
    Nothing,
}

/// What a key (with Control held or not) means; `l`, `h` and the arrows
/// sideways only scroll when long lines are cut.
pub open spec fn classify(key: Key, ctrl: bool, chop: bool) -> KeyClass {
    match key {
        Key::Char(c) => if '0' <= c && c <= '9' {
            KeyClass::Digit(c)
        } else if c == 'q' || c == 'Q' {
            KeyClass::Quit
        } else if c == 'c' && ctrl {
            KeyClass::Quit
        } else if c == 'j' || c == 'e' {
            KeyClass::Down
        } else if c == 'k' || c == 'y' {
            KeyClass::Up
        } else if c == 'f' || c == ' ' {
            KeyClass::PageDown
        } else if c == 'b' {
            KeyClass::PageUp
        } else if c == 'd' {
            KeyClass::HalfDown
        } else if c == 'u' {
            KeyClass::HalfUp
        } else if c == 'g' || c == '<' {
            KeyClass::First
        } else if c == 'G' || c == '>' {
            KeyClass::Last
        } else if c == 'l' && chop {
            KeyClass::Right
        } else if c == 'h' && chop {
            KeyClass::Left
        } else if c == '/' {
            KeyClass::SearchForward
        } else if c == '?' {
            KeyClass::SearchBackward
        } else if c == 'n' {
            KeyClass::Next
        } else if c == 'N' {
            KeyClass::Previous
        } else if c == '&' {
            KeyClass::Filter
        } else if c == '=' {
            KeyClass::Info
        } else if c == 'v' {
            KeyClass::Editor
        } else if c == 'F' {
            KeyClass::Follow
        } else {
            KeyClass::Nothing
        },
        Key::Esc => KeyClass::Escape,
        Key::Down | Key::Enter => KeyClass::Down,
        Key::Up => KeyClass::Up,
        Key::PageDown => KeyClass::PageDown,
        Key::PageUp => KeyClass::PageUp,
        Key::Home => KeyClass::First,
        Key::End => KeyClass::Last,
        Key::Right => if chop { KeyClass::Right } else { KeyClass::Nothing },
        Key::Left => if chop { KeyClass::Left } else { KeyClass::Nothing },
        Key::Other => KeyClass::Nothing,
    }
}

/// The count typed before a key, if any (a number too large counts as none).
pub open spec fn count_of(buf: Seq<char>) -> Option<int> {
    if buf.len() == 0 { None } else { parse_int_spec(buf, 0, usize::MAX as int) }
}

/// `x`, but at most the largest `usize`.
pub open spec fn sat(x: int) -> int {
    if x > usize::MAX { usize::MAX as int } else { x }
}

/// `x - y`, but not below 0.
pub open spec fn sat_sub(x: int, y: int) -> int {
    if x >= y { x - y } else { 0 }
}

/// The smaller of two.
pub open spec fn min(x: int, y: int) -> int {
    if x <= y { x } else { y }
}

/// The move counter after a forward move to `top`: counted when `top`
/// reaches the last screenful.
pub open spec fn eof_after(eof: int, top: int, len: int, rows: int) -> int {
    if top >= end_top(len, rows) { sat(eof + 1) } else { eof }
}

/// The number of bytes of the lines, each with its line ending (at most
/// the largest `usize`).
pub open spec fn bytes_from(lines: Seq<Seq<char>>, k: int) -> int
    decreases k,
{
    if k <= 0 { 0 } else { sat(bytes_from(lines, k - 1) + utf8_len(lines[k - 1], lines[k - 1].len() as int) + 1) }
}

/// The bytes a character takes in UTF-8.
pub open spec fn utf8_width(c: char) -> int {
    let u = c as u32;
    if u < 0x80 { 1 } else if u < 0x800 { 2 } else if u < 0x10000 { 3 } else { 4 }
}

/// The UTF-8 length of the first `i` characters (at most the largest `usize`).
pub open spec fn utf8_len(s: Seq<char>, i: int) -> int
    decreases i,
{
    if i <= 0 { 0 } else { sat(utf8_len(s, i - 1) + utf8_width(s[i - 1])) }
}

/// The UTF-8 length of a text.
fn utf8_length(s: &String) -> (r: usize)
    ensures
        r == utf8_len(s@, s@.len() as int),
{
    let v = chars_of(s.as_str());
    let mut n: usize = 0;
    let mut i: usize = 0;
    while i < v.len()
        invariant
            i <= v.len(),
            v@ == s@,
            n == utf8_len(v@, i as int),
        decreases v.len() - i,
    {
        let u = v[i] as u32;
        let w: usize = if u < 0x80 { 1 } else if u < 0x800 { 2 } else if u < 0x10000 { 3 } else { 4 };
        n = n.saturating_add(w);
        i += 1;
    }
    n
}

/// What `=` shows.
pub open spec fn info_text(name: Seq<char>, top: int, rows: int, len: int, nlines: int, bytes: int) -> Seq<char> {
    name + " lines "@ + decimal(sat(top + 1) as nat) + "-"@ + decimal(min(sat(top + rows), len) as nat) + " / "@
        + decimal(nlines as nat) + " lines ("@ + decimal(bytes as nat) + " bytes)"@
}

impl Pager {
    /// The text of `=`.
    pub open spec fn info_spec(&self) -> Seq<char> {
        info_text(self.filename@, self.top_line as int, self.rows(), self.display_lines.len() as int,
            self.lines.len() as int, bytes_from(strings_view(self.lines@), self.lines.len() as int))
    }

    /// The fields that keys never change.
    pub open spec fn same_document(&self, other: &Pager) -> bool {
        &&& self.lines == other.lines
        &&& self.term_rows == other.term_rows
        &&& self.term_cols == other.term_cols
        &&& self.opts == other.opts
        &&& self.filename == other.filename
        &&& self.filepath == other.filepath
        &&& self.search_pattern == other.search_pattern
    }
}

impl Pager {
    /// Everything but the top line and the move counter stays.
    pub open spec fn frame(&self, other: &Pager) -> bool {
        &&& self.same_document(other)
        &&& self.display_lines == other.display_lines
        &&& self.left_col == other.left_col
        &&& self.filter_pattern == other.filter_pattern
        &&& self.input_buffer == other.input_buffer
        &&& self.message == other.message
    }
}

/// The decimal text of `n` appended to `s`.
fn push_number(s: &mut String, n: usize)
    ensures
        final(s)@ == old(s)@ + decimal(n as nat),
{
    let d = decimal_string(n as u64);
    s.append(d.as_str());
}

impl Pager {
    /// `=`: says which lines are shown, how many there are and their bytes.
    pub fn show_file_info(&mut self)
        requires
            old(self).term_rows >= 1,
        ensures
            opt_text(final(self).message) == Some(old(self).info_spec()),
            final(self).same_document(old(self)),
            final(self).display_lines == old(self).display_lines,
            final(self).top_line == old(self).top_line,
            final(self).left_col == old(self).left_col,
            final(self).eof_count == old(self).eof_count,
            final(self).filter_pattern == old(self).filter_pattern,
            final(self).input_buffer == old(self).input_buffer,
    {
        proof {
            reveal_strlit(" lines ");
        }
        let rows = (self.term_rows - 1) as usize;
        let start = self.top_line.saturating_add(1);
        let reach = self.top_line.saturating_add(rows);
        let end = if reach <= self.display_lines.len() { reach } else { self.display_lines.len() };
        let ghost lv = strings_view(self.lines@);
        let mut bytes: usize = 0;
        let mut k: usize = 0;
        while k < self.lines.len()
            invariant
                k <= self.lines.len(),
                *self == *old(self),
                lv == strings_view(self.lines@),
                bytes == bytes_from(lv, k as int),
            decreases self.lines.len() - k,
        {
            assert(lv[k as int] == self.lines@[k as int]@);
            let n = utf8_length(&self.lines[k]);
            let ghost b0 = bytes;
            bytes = bytes.saturating_add(n).saturating_add(1);
            assert(bytes == sat(b0 + n + 1));
            k += 1;
        }
        let mut m = self.filename.clone();
        m.append(" lines ");
        push_number(&mut m, start);
        m.append("-");
        push_number(&mut m, end);
        m.append(" / ");
        push_number(&mut m, self.lines.len());
        m.append(" lines (");
        push_number(&mut m, bytes);
        m.append(" bytes)");
        self.message = Some(m);
    }

    /// The count typed before a key, and an empty typing buffer.
    fn take_count(&mut self) -> (r: Option<usize>)
        ensures
            match count_of(old(self).input_buffer@) {
                Some(n) => r == Some(n as usize),
                None => r is None,
            },
            final(self).input_buffer@ == Seq::<char>::empty(),
            final(self).same_document(old(self)),
            final(self).display_lines == old(self).display_lines,
            final(self).top_line == old(self).top_line,
            final(self).left_col == old(self).left_col,
            final(self).eof_count == old(self).eof_count,
            final(self).filter_pattern == old(self).filter_pattern,
            final(self).message == old(self).message,
    {
        let v = chars_of(self.input_buffer.as_str());
        if v.len() == 0 {
            proof {
                assert(self.input_buffer@ =~= Seq::<char>::empty());
            }
            return None;
        }
        let n = parse_usize(&v);
        self.input_buffer = String::new();
        n
    }
}

} // verus!

verus! {

/// What a key class asks of the caller; `Esc` only quits when no filter
/// is set.
pub open spec fn action_of(cls: KeyClass, filtered: bool) -> Action {
    match cls {
        KeyClass::Quit => Action::Quit,
        KeyClass::Escape => if filtered { Action::Continue } else { Action::Quit },
        KeyClass::SearchForward => Action::Search(true),
        KeyClass::SearchBackward => Action::Search(false),
        KeyClass::Filter => Action::Filter,
        KeyClass::Editor => Action::OpenEditor,
        KeyClass::Follow => Action::FollowMode,
        _ => Action::Continue,
    }
}

pub open spec fn or_else(o: Option<int>, d: int) -> int {
    match o {
        Some(n) => n,
        None => d,
    }
}

impl Pager {
    /// The top line after a key with the count `count` (not a digit).
    pub open spec fn top_after(&self, cls: KeyClass, count: Option<int>) -> int {
        let rows = self.rows();
        let page = sat_sub(rows, 1);
        let half = page / 2;
        let top = self.top_line as int;
        let max_top = self.max_top();
        let dl = lines_view(self.display_lines@);
        match cls {
            KeyClass::Down => min(sat(top + or_else(count, 1)), max_top),
            KeyClass::Up => sat_sub(top, or_else(count, 1)),
            KeyClass::PageDown => min(sat(top + sat(page * or_else(count, 1))), max_top),
            KeyClass::PageUp => sat_sub(top, sat(page * or_else(count, 1))),
            KeyClass::HalfDown => min(sat(top + or_else(count, half)), max_top),
            KeyClass::HalfUp => sat_sub(top, or_else(count, half)),
            KeyClass::First => match count {
                Some(n) => goto_line_top(dl, n, rows),
                None => 0,
            },
            KeyClass::Last => match count {
                Some(n) => goto_line_top(dl, n, rows),
                None => end_top(dl.len() as int, rows),
            },
            KeyClass::Next => self.find_after(true).0,
            KeyClass::Previous => self.find_after(false).0,
            _ => top,
        }
    }

    /// A search from the top line, with the message cleared first.
    pub open spec fn find_after(&self, forward: bool) -> (int, Option<Seq<char>>) {
        find_spec(lines_view(self.display_lines@), self.top_line as int, self.rows(), opt_text(self.search_pattern),
            self.opts.smart_case, self.opts.ignore_case, forward, None)
    }

    /// The move counter after a key that moves to `top`.
    pub open spec fn eof_after_key(&self, cls: KeyClass, top: int) -> int {
        match cls {
            KeyClass::Down | KeyClass::PageDown | KeyClass::HalfDown =>
                eof_after(self.eof_count as int, top, self.display_lines.len() as int, self.rows()),
            KeyClass::Up | KeyClass::PageUp | KeyClass::HalfUp | KeyClass::First => 0,
            _ => self.eof_count as int,
        }
    }

    /// The left column after a key.
    pub open spec fn left_after(&self, cls: KeyClass, count: Option<int>) -> int {
        match cls {
            KeyClass::Right => sat(self.left_col + or_else(count, 8)),
            KeyClass::Left => sat_sub(self.left_col as int, or_else(count, 8)),
            _ => self.left_col as int,
        }
    }

    /// The message after a key.
    pub open spec fn message_after(&self, cls: KeyClass) -> Option<Seq<char>> {
        match cls {
            KeyClass::Next => self.find_after(true).1,
            KeyClass::Previous => self.find_after(false).1,
            KeyClass::Info => Some(self.info_spec()),
            _ => None,
        }
    }
}

/// What a key does: a digit is added to the count being typed and shown;
/// any other key takes that count, clears the message, and moves the
/// screen, scrolls sideways, searches, clears the filter, shows the file's
/// facts or asks the caller for something, as `classify` and the spec
/// functions above say.
pub open spec fn key_effect(p: &Pager, q: &Pager, key: Key, ctrl: bool, a: Action) -> bool {
    match classify(key, ctrl, p.opts.chop_long) {
        KeyClass::Digit(c) => {
            &&& q.input_buffer@ == p.input_buffer@.push(c)
            &&& opt_text(q.message) == Some(":"@ + q.input_buffer@)
            &&& q.top_line == p.top_line
            &&& q.left_col == p.left_col
            &&& q.eof_count == p.eof_count
            &&& q.filter_pattern == p.filter_pattern
            &&& q.display_lines == p.display_lines
            &&& a == Action::Continue
        },
        cls => {
            let count = count_of(p.input_buffer@);
            let escape_filter = cls is Escape && p.filter_pattern is Some;
            &&& q.input_buffer@ == Seq::<char>::empty()
            &&& escape_filter ==> q.filter_pattern is None
            &&& !escape_filter ==> q.filter_pattern == p.filter_pattern && q.display_lines == p.display_lines
            &&& a == action_of(cls, p.filter_pattern is Some)
            &&& q.top_line == p.top_after(cls, count)
            &&& q.eof_count == p.eof_after_key(cls, q.top_line as int)
            &&& q.left_col == p.left_after(cls, count)
            &&& opt_text(q.message) == p.message_after(cls)
        },
    }
}

/// What a key means.
pub fn classify_key(key: Key, ctrl: bool, chop: bool) -> (r: KeyClass)
    ensures
        r == classify(key, ctrl, chop),
{
    match key {
        Key::Char(c) => if '0' <= c && c <= '9' {
            KeyClass::Digit(c)
        } else if c == 'q' || c == 'Q' {
            KeyClass::Quit
        } else if c == 'c' && ctrl {
            KeyClass::Quit
        } else if c == 'j' || c == 'e' {
            KeyClass::Down
        } else if c == 'k' || c == 'y' {
            KeyClass::Up
        } else if c == 'f' || c == ' ' {
            KeyClass::PageDown
        } else if c == 'b' {
            KeyClass::PageUp
        } else if c == 'd' {
            KeyClass::HalfDown
        } else if c == 'u' {
            KeyClass::HalfUp
        } else if c == 'g' || c == '<' {
            KeyClass::First
        } else if c == 'G' || c == '>' {
            KeyClass::Last
        } else if c == 'l' && chop {
            KeyClass::Right
        } else if c == 'h' && chop {
            KeyClass::Left
        } else if c == '/' {
            KeyClass::SearchForward
        } else if c == '?' {
            KeyClass::SearchBackward
        } else if c == 'n' {
            KeyClass::Next
        } else if c == 'N' {
            KeyClass::Previous
        } else if c == '&' {
            KeyClass::Filter
        } else if c == '=' {
            KeyClass::Info
        } else if c == 'v' {
            KeyClass::Editor
        } else if c == 'F' {
            KeyClass::Follow
        } else {
            KeyClass::Nothing
        },
        Key::Esc => KeyClass::Escape,
        Key::Down | Key::Enter => KeyClass::Down,
        Key::Up => KeyClass::Up,
        Key::PageDown => KeyClass::PageDown,
        Key::PageUp => KeyClass::PageUp,
        Key::Home => KeyClass::First,
        Key::End => KeyClass::Last,
        Key::Right => if chop { KeyClass::Right } else { KeyClass::Nothing },
        Key::Left => if chop { KeyClass::Left } else { KeyClass::Nothing },
        Key::Other => KeyClass::Nothing,
    }
}

/// `a * b`, but at most the largest `usize`.
fn sat_mul(a: usize, b: usize) -> (r: usize)
    ensures
        r == sat(a * b),
{
    match a.checked_mul(b) {
        Some(x) => x,
        None => usize::MAX,
    }
}

fn or_else_exec(o: Option<usize>, d: usize) -> (r: usize)
    ensures
        r == or_else(match o { Some(n) => Some(n as int), None => None }, d as int),
{
    match o {
        Some(n) => n,
        None => d,
    }
}

impl Pager {
    /// The moves that only change the top line and the move counter.
    #[verifier::rlimit(60)]
    fn move_by(&mut self, cls: KeyClass, count: Option<usize>)
        requires
            old(self).term_rows >= 1,
            cls is Down || cls is Up || cls is PageDown || cls is PageUp || cls is HalfDown || cls is HalfUp,
        ensures
            final(self).top_line == old(self).top_after(cls, match count { Some(n) => Some(n as int), None => None }),
            final(self).eof_count == old(self).eof_after_key(cls, final(self).top_line as int),
            final(self).same_document(old(self)),
            final(self).display_lines == old(self).display_lines,
            final(self).left_col == old(self).left_col,
            final(self).filter_pattern == old(self).filter_pattern,
            final(self).input_buffer == old(self).input_buffer,
            final(self).message == old(self).message,
    {
        let rows = (self.term_rows - 1) as usize;
        let page = if rows >= 1 { rows - 1 } else { 0 };
        let half = page / 2;
        let max_top = if self.display_lines.len() >= rows { self.display_lines.len() - rows } else { 0 };
        match cls {
            KeyClass::Down => {
                let t = self.top_line.saturating_add(or_else_exec(count, 1));
                self.top_line = if t <= max_top { t } else { max_top };
                self.check_eof();
            },
            KeyClass::Up => {
                self.top_line = self.top_line.saturating_sub(or_else_exec(count, 1));
                self.eof_count = 0;
            },
            KeyClass::PageDown => {
                let t = self.top_line.saturating_add(sat_mul(page, or_else_exec(count, 1)));
                self.top_line = if t <= max_top { t } else { max_top };
                self.check_eof();
            },
            KeyClass::PageUp => {
                self.top_line = self.top_line.saturating_sub(sat_mul(page, or_else_exec(count, 1)));
                self.eof_count = 0;
            },
            KeyClass::HalfDown => {
                let t = self.top_line.saturating_add(or_else_exec(count, half));
                self.top_line = if t <= max_top { t } else { max_top };
                self.check_eof();
            },
            _ => {
                self.top_line = self.top_line.saturating_sub(or_else_exec(count, half));
                self.eof_count = 0;
            },
        }
    }

    /// Applies a key: see `key_effect`. Searching and filtering end in an
    /// action that asks the caller for the pattern.
    #[verifier::rlimit(100)]
    pub fn handle_key(&mut self, key: Key, ctrl: bool) -> (a: Action)
        requires
            old(self).wf(),
        ensures
            final(self).wf(),
            final(self).same_document(old(self)),
            key_effect(old(self), final(self), key, ctrl, a),
    {
        let ghost start = *self;
        self.message = None;
        let cls = classify_key(key, ctrl, self.opts.chop_long);
        if let KeyClass::Digit(c) = cls {
            push_char(&mut self.input_buffer, c);
            let mut m = String::from_str(":");
            m.append(self.input_buffer.as_str());
            self.message = Some(m);
            return Action::Continue;
        }
        let count = self.take_count();
        let ghost after_count = *self;
        assert(after_count.top_after(cls, count_of(start.input_buffer@)) == start.top_after(cls, count_of(start.input_buffer@)));
        match cls {
            KeyClass::Quit => Action::Quit,
            KeyClass::Escape => {
                if self.filter_pattern.is_some() {
                    self.filter_pattern = None;
                    self.rebuild_display_lines();
                    Action::Continue
                } else {
                    Action::Quit
                }
            },
            KeyClass::Down | KeyClass::Up | KeyClass::PageDown | KeyClass::PageUp | KeyClass::HalfDown | KeyClass::HalfUp => {
                self.move_by(cls, count);
                Action::Continue
            },
            KeyClass::First => {
                match count {
                    Some(n) => self.goto_line(n),
                    None => self.top_line = 0,
                }
                self.eof_count = 0;
                Action::Continue
            },
            KeyClass::Last => {
                match count {
                    Some(n) => self.goto_line(n),
                    None => self.goto_end(),
                }
                Action::Continue
            },
            KeyClass::Right => {
                self.left_col = self.left_col.saturating_add(or_else_exec(count, 8));
                Action::Continue
            },
            KeyClass::Left => {
                self.left_col = self.left_col.saturating_sub(or_else_exec(count, 8));
                Action::Continue
            },
            KeyClass::SearchForward => Action::Search(true),
            KeyClass::SearchBackward => Action::Search(false),
            KeyClass::Next => {
                self.find_next(true);
                Action::Continue
            },
            KeyClass::Previous => {
                self.find_next(false);
                Action::Continue
            },
            KeyClass::Filter => Action::Filter,
            KeyClass::Info => {
                self.show_file_info();
                Action::Continue
            },
            KeyClass::Editor => Action::OpenEditor,
            KeyClass::Follow => Action::FollowMode,
            _ => Action::Continue,
        }
    }
}

} // verus!

verus! {

/// The prompt line: `(END)` at the end; otherwise the file's name on the
/// first screen (short), the percentage reached (`-m`), or the lines shown
/// of how many with the percentage (`-M`).
pub open spec fn prompt_spec(mode: PromptMode, name: Seq<char>, top: int, rows: int, len: int) -> Seq<char> {
    let at_end = top + rows >= len;
    let at_start = top == 0;
    let end = min(top + rows, len);
    let lines = name + " lines "@ + decimal(sat(top + 1) as nat) + "-"@ + decimal(end as nat) + "/"@ + decimal(len as nat);
    match mode {
        PromptMode::Short => if len == 0 || at_end {
            "(END)"@
        } else if at_start {
            name + ":"@
        } else {
            ":"@
        },
        PromptMode::Medium => if at_end {
            "(END)"@
        } else {
            decimal((((top + rows) * 100) / (if len >= 1 { len } else { 1 })) as nat) + "%"@
        },
        PromptMode::Long => if at_end {
            lines + " (END)"@
        } else {
            lines + " "@ + decimal(((end * 100) / (if len >= 1 { len } else { 1 })) as nat) + "%"@
        },
    }
}

impl Pager {
    /// Makes a pager on `lines`, shown from the top.
    pub fn new(lines: Vec<String>, filename: String, filepath: Option<String>, opts: Options, cols: u16, rows: u16) -> (p: Pager)
        requires
            opts.tab_stop > 0,
            rows >= 1,
        ensures
            p.wf(),
            p.lines == lines,
            p.filename == filename,
            p.filepath == filepath,
            p.opts == opts,
            p.term_cols == cols,
            p.term_rows == rows,
            p.top_line == 0,
            p.left_col == 0,
            p.eof_count == 0,
            p.search_pattern is None,
            p.message is None,
            p.filter_pattern is None,
            p.input_buffer@ == Seq::<char>::empty(),
    {
        let mut p = Pager {
            lines,
            display_lines: Vec::new(),
            top_line: 0,
            left_col: 0,
            term_rows: rows,
            term_cols: cols,
            opts,
            search_pattern: None,
            filename,
            filepath,
            message: None,
            eof_count: 0,
            filter_pattern: None,
            input_buffer: String::new(),
        };
        p.rebuild_display_lines();
        p
    }

    /// A new terminal size: the screen lines are built again.
    pub fn resize(&mut self, cols: u16, rows: u16)
        requires
            old(self).wf(),
            rows >= 1,
        ensures
            final(self).wf(),
            final(self).term_cols == cols,
            final(self).term_rows == rows,
            final(self).lines == old(self).lines,
            final(self).opts == old(self).opts,
            final(self).top_line == old(self).top_line,
            final(self).filter_pattern == old(self).filter_pattern,
            final(self).search_pattern == old(self).search_pattern,
    {
        self.term_cols = cols;
        self.term_rows = rows;
        self.rebuild_display_lines();
    }

    /// The pattern typed after `/` or `?`: an empty one changes nothing,
    /// another becomes the search pattern and is searched for.
    pub fn search_entered(&mut self, pattern: String, forward: bool)
        requires
            old(self).wf(),
        ensures
            final(self).wf(),
            pattern@.len() == 0 ==> *final(self) == *old(self),
            pattern@.len() > 0 ==> opt_text(final(self).search_pattern) == Some(pattern@)
                && (final(self).top_line as int, opt_text(final(self).message)) == find_spec(lines_view(old(self).display_lines@),
                    old(self).top_line as int, old(self).rows(), Some(pattern@), old(self).opts.smart_case,
                    old(self).opts.ignore_case, forward, opt_text(old(self).message)),
    {
        let v = chars_of(pattern.as_str());
        if v.len() > 0 {
            self.search_pattern = Some(pattern);
            self.find_next(forward);
        }
    }

    /// The pattern typed after `&`: only lines that hold it (case aside)
    /// are shown, all of them when it is empty; the screen goes to the top.
    pub fn filter_entered(&mut self, pattern: String)
        requires
            old(self).wf(),
        ensures
            final(self).wf(),
            opt_text(final(self).filter_pattern) == if pattern@.len() == 0 { None } else { Some(pattern@) },
            final(self).top_line == 0,
            final(self).same_document(old(self)),
    {
        let v = chars_of(pattern.as_str());
        self.filter_pattern = if v.len() == 0 { None } else { Some(pattern) };
        self.top_line = 0;
        self.rebuild_display_lines();
    }

    /// New lines (the file read again, or more of it): the screen lines are
    /// built again.
    pub fn set_lines(&mut self, lines: Vec<String>)
        requires
            old(self).wf(),
        ensures
            final(self).wf(),
            final(self).lines == lines,
            final(self).top_line == old(self).top_line,
            final(self).opts == old(self).opts,
            final(self).term_rows == old(self).term_rows,
            final(self).term_cols == old(self).term_cols,
            final(self).filter_pattern == old(self).filter_pattern,
    {
        self.lines = lines;
        self.rebuild_display_lines();
    }

    /// The line (from 1) the editor opens at: that of the top screen line.
    pub fn editor_line(&self) -> (n: usize)
        ensures
            n == if self.top_line < self.display_lines.len() {
                sat(self.display_lines@[self.top_line as int].original_idx + 1)
            } else {
                1
            },
    {
        if self.top_line < self.display_lines.len() {
            self.display_lines[self.top_line].original_idx.saturating_add(1)
        } else {
            1
        }
    }

    /// The prompt line.
    pub fn build_prompt(&self) -> (r: String)
        requires
            self.term_rows >= 1,
        ensures
            r@ == prompt_spec(self.opts.prompt_mode, self.filename@, self.top_line as int, self.rows(),
                self.display_lines.len() as int),
    {
        proof {
            reveal_strlit(" lines ");
        }
        let rows = (self.term_rows - 1) as u128;
        let top = self.top_line as u128;
        let len = self.display_lines.len() as u128;
        let at_end = top + rows >= len;
        let at_start = self.top_line == 0;
        let end: u128 = if top + rows <= len { top + rows } else { len };
        let denom: u128 = if len >= 1 { len } else { 1 };
        match self.opts.prompt_mode {
            PromptMode::Short => {
                if len == 0 || at_end {
                    String::from_str("(END)")
                } else if at_start {
                    let mut s = self.filename.clone();
                    s.append(":");
                    s
                } else {
                    String::from_str(":")
                }
            },
            PromptMode::Medium => {
                if at_end {
                    String::from_str("(END)")
                } else {
                    assert(((top + rows) * 100) / (denom as int) < 100) by (nonlinear_arith)
                        requires top + rows < denom, denom >= 1;
                    let pct = ((top + rows) * 100 / denom) as u64;
                    let mut s = decimal_string(pct);
                    s.append("%");
                    s
                }
            },
            PromptMode::Long => {
                let mut s = self.filename.clone();
                s.append(" lines ");
                push_number(&mut s, self.top_line.saturating_add(1));
                s.append("-");
                push_number(&mut s, end as usize);
                s.append("/");
                push_number(&mut s, self.display_lines.len());
                if at_end {
                    s.append(" (END)");
                } else {
                    s.append(" ");
                    assert((end * 100) / (denom as int) <= 100) by (nonlinear_arith)
                        requires end <= denom, denom >= 1;
                    let pct = (end * 100 / denom) as u64;
                    let d = decimal_string(pct);
                    s.append(d.as_str());
                    s.append("%");
                }
                s
            },
        }
    }
}

} // verus!
