//! Turning a line of `groff` text into output words: the escapes, the font
//! changes and their SGR codes, word spacing in fill mode and the blanks
//! kept in no-fill mode.
use vstd::prelude::*;
use crate::groff::special::{Device, special_spec, special_char};
use crate::groff::{
    width_spec, char_width, escape_name_spec, read_escape_name, delim_arg_spec, read_delim_arg,
    size_escape_end, consume_size_escape, sentence_end_spec, is_sentence_end, spaces,
};
use crate::text::{push_char, string_of, slice_chars, chars_of, contains_char};

verus! {

/// A word of output.
#[derive(Debug, Clone)]
pub struct Word {
    pub text: String,
    /// Its columns.
    pub width: usize,
    /// Columns between it and the word before.
    pub gap: usize,
    /// It ends a sentence (two spaces follow it).
    pub sentence_end: bool,
    /// The space before it may be stretched when lines are justified.
    pub adjustable: bool,
}

/// A word as plain values.
pub struct WordView {
    pub text: Seq<char>,
    pub width: usize,
    pub gap: usize,
    pub sentence_end: bool,
    pub adjustable: bool,
}

impl View for Word {
    type V = WordView;

    open spec fn view(&self) -> WordView {
        WordView {
            text: self.text@,
            width: self.width,
            gap: self.gap,
            sentence_end: self.sentence_end,
            adjustable: self.adjustable,
        }
    }
}

/// The views of a list of words.
pub open spec fn words_view(ws: Seq<Word>) -> Seq<WordView> {
    ws.map_values(|w: Word| w@)
}

/// The words of a line, and the places of its `\p` breaks: before the
/// word at each index in `breaks` the line so far is printed spread.
pub struct Rendered {
    pub words: Vec<Word>,
    pub breaks: Vec<usize>,
}

impl View for Rendered {
    type V = (Seq<WordView>, Seq<usize>);

    open spec fn view(&self) -> (Seq<WordView>, Seq<usize>) {
        (words_view(self.words@), self.breaks@)
    }
}

/// What turning text into words reads of the typesetter: the device,
/// whether SGR codes are written, fill mode, the current and previous
/// font (`R`, `B`, `I`, or `X` for bold italic), whether the line before
/// ended in `\c`, the columns already on the output line, and the tab
/// stops.
pub struct TextStyle {
    pub device: Device,
    pub styled: bool,
    pub fill: bool,
    pub font: char,
    pub prev_font: char,
    pub pending_connect: bool,
    pub line_width: usize,
    pub tab_stops: Vec<usize>,
}

/// A `TextStyle` as plain values.
pub struct TextStyleView {
    pub device: Device,
    pub styled: bool,
    pub fill: bool,
    pub font: char,
    pub prev_font: char,
    pub pending_connect: bool,
    pub line_width: usize,
    pub tab_stops: Seq<usize>,
}

impl View for TextStyle {
    type V = TextStyleView;

    open spec fn view(&self) -> TextStyleView {
        TextStyleView {
            device: self.device,
            styled: self.styled,
            fill: self.fill,
            font: self.font,
            prev_font: self.prev_font,
            pending_connect: self.pending_connect,
            line_width: self.line_width,
            tab_stops: self.tab_stops@,
        }
    }
}

/// The state of the scan of a line: the words so far, the breaks, the word
/// being built (its text, columns, whether it has content, whether its SGR
/// code is open), the gap before the next word, the fonts, whether `\c`
/// was seen, whether the scan stopped, the columns of the words since the
/// last break and of the line before them, and the arguments of the `\h`
/// motions read.
#[verifier::ext_equal]
pub struct ScanView {
    pub words: Seq<WordView>,
    pub breaks: Seq<usize>,
    pub cur: Seq<char>,
    pub cur_width: usize,
    pub has_content: bool,
    pub style_open: bool,
    pub gap_next: usize,
    pub font: char,
    pub prev_font: char,
    pub connect: bool,
    pub stopped: bool,
    pub extent: usize,
    pub base: usize,
    pub hargs: Seq<Seq<char>>,
}

/// `x` cut to the range of `usize`.
pub open spec fn sat(x: int) -> usize {
    if x > usize::MAX {
        usize::MAX
    } else if x < 0 {
        0
    } else {
        x as usize
    }
}

/// The SGR code that starts a font.
pub open spec fn style_on_spec(styled: bool, font: char) -> Seq<char> {
    if !styled {
        ""@
    } else if font == 'B' {
        "\x1b[1m"@
    } else if font == 'I' {
        "\x1b[4m"@
    } else if font == 'X' {
        "\x1b[1m\x1b[4m"@
    } else {
        ""@
    }
}

/// The SGR code that ends a font.
pub open spec fn style_off_spec(styled: bool, font: char) -> Seq<char> {
    if styled && (font == 'B' || font == 'I' || font == 'X') {
        "\x1b[0m"@
    } else {
        ""@
    }
}

/// The font a `\f` name selects: bold italic where it holds `B` and `I`,
/// bold or italic where it holds one of them, else by number (`1` roman,
/// `2` italic, `3` bold, `4` bold italic), else roman.
pub open spec fn font_of(name: Seq<char>) -> char {
    let b = name.contains('B');
    let i = name.contains('I');
    if b && i {
        'X'
    } else if b {
        'B'
    } else if i {
        'I'
    } else if name == "1"@ {
        'R'
    } else if name == "2"@ {
        'I'
    } else if name == "3"@ {
        'B'
    } else if name == "4"@ {
        'X'
    } else if name == "P"@ {
        'P'
    } else {
        'R'
    }
}

/// Starts the SGR code of the font on the word being built, if not yet.
pub open spec fn open_style(st: TextStyleView, s: ScanView) -> ScanView {
    if !s.style_open && s.font != 'R' {
        ScanView { cur: s.cur + style_on_spec(st.styled, s.font), style_open: true, ..s }
    } else {
        s
    }
}

/// Ends the SGR code of the font on the word being built, if open.
pub open spec fn close_style(st: TextStyleView, s: ScanView) -> ScanView {
    if s.style_open {
        ScanView { cur: s.cur + style_off_spec(st.styled, s.font), style_open: false, ..s }
    } else {
        s
    }
}

/// The columns `w` plus those of `t`, cut at the range of `usize`.
pub open spec fn text_width(w: usize, t: Seq<char>) -> usize
    decreases t.len(),
{
    if t.len() == 0 {
        w
    } else {
        text_width(sat(w + width_spec(t[0])), t.drop_first())
    }
}

/// Adds a visible character to the word.
pub open spec fn push_chr(st: TextStyleView, s: ScanView, c: char) -> ScanView {
    let o = open_style(st, s);
    ScanView { cur: o.cur.push(c), cur_width: sat(o.cur_width + width_spec(c)), has_content: true, ..o }
}

/// Adds the text of a special character to the word.
pub open spec fn push_text(st: TextStyleView, s: ScanView, t: Seq<char>) -> ScanView {
    if t.len() == 0 {
        s
    } else {
        let o = open_style(st, s);
        ScanView { cur: o.cur + t, cur_width: text_width(o.cur_width, t), has_content: true, ..o }
    }
}

/// Adds a marker of no width to the word.
pub open spec fn push_mark(st: TextStyleView, s: ScanView, c: char) -> ScanView {
    let o = open_style(st, s);
    ScanView { cur: o.cur.push(c), ..o }
}

/// Adds `n` blanks to the word.
pub open spec fn push_blank(st: TextStyleView, s: ScanView, n: nat) -> ScanView {
    if n == 0 {
        s
    } else {
        let o = open_style(st, s);
        ScanView { cur: o.cur + spaces(n), cur_width: sat(o.cur_width + n), ..o }
    }
}

/// Ends the word being built: a word with content (or text) joins the
/// list with at least one column before it, and `g` columns come before
/// the next; an empty one only adds `g` to the gap.
pub open spec fn end_word(st: TextStyleView, s: ScanView, g: usize) -> ScanView {
    let c = close_style(st, s);
    if c.has_content || c.cur.len() > 0 {
        let gap: usize = if c.gap_next >= 1 { c.gap_next } else { 1 };
        let w = WordView { text: c.cur, width: c.cur_width, gap, sentence_end: false, adjustable: true };
        ScanView {
            words: c.words.push(w),
            extent: sat(sat(c.extent + c.cur_width) + gap),
            gap_next: g,
            cur: Seq::empty(),
            cur_width: 0,
            has_content: false,
            ..c
        }
    } else {
        ScanView { gap_next: sat(c.gap_next + g), cur: Seq::empty(), cur_width: 0, has_content: false, ..c }
    }
}

/// The first tab stop from `k` on beyond column `pos`, else the column
/// after it.
pub open spec fn next_stop(stops: Seq<usize>, pos: usize, k: int) -> usize
    decreases stops.len() - k,
{
    if k < 0 || k >= stops.len() {
        sat(pos + 1)
    } else if stops[k] > pos {
        stops[k]
    } else {
        next_stop(stops, pos, k + 1)
    }
}

/// A tab in no-fill mode: blanks up to the next tab stop.
pub open spec fn tab(st: TextStyleView, s: ScanView) -> ScanView {
    let pos = sat(sat(s.base + s.extent) + s.cur_width);
    let stop = next_stop(st.tab_stops, pos, 0);
    let n: nat = if stop > pos { (stop - pos) as nat } else { 0 };
    ScanView { has_content: true, ..push_blank(st, s, n) }
}

/// Where the run of spaces from `i` ends.
pub open spec fn blank_end(t: Seq<char>, i: int) -> int
    decreases t.len() - i,
{
    if 0 <= i < t.len() && t[i] == ' ' {
        blank_end(t, i + 1)
    } else {
        i
    }
}

/// Adds the text of a special character, where the device has one.
pub open spec fn push_special(st: TextStyleView, s: ScanView, name: Seq<char>) -> ScanView {
    match special_spec(name, st.device) {
        Some(x) => push_text(st, s, x),
        None => s,
    }
}

/// `\f`: selects a font (`P` the previous one), ending the open SGR code
/// when it changes.
pub open spec fn font_escape(st: TextStyleView, s: ScanView, name: Seq<char>) -> ScanView {
    let newf = if name == "P"@ { s.prev_font } else { font_of(name) };
    if newf != s.font {
        let c = close_style(st, s);
        ScanView { prev_font: s.font, font: newf, ..c }
    } else {
        s
    }
}

/// `\h`: a horizontal motion whose argument `a` is read; the motion in
/// whole columns, where it could be evaluated, is the next of `m`.
pub open spec fn motion_escape(st: TextStyleView, m: Seq<Option<i64>>, s: ScanView, a: Seq<char>) -> ScanView {
    let mv = if s.hargs.len() < m.len() { m[s.hargs.len() as int] } else { None };
    let s1 = ScanView { hargs: s.hargs.push(a), ..s };
    match mv {
        Some(n) => ScanView { has_content: true, ..push_blank(st, s1, if n > 0 { n as nat } else { 0 }) },
        None => s1,
    }
}

/// The escapes that add text: their effect on the scan.
pub open spec fn text_escape(st: TextStyleView, s: ScanView, e: char) -> ScanView {
    if e == 'e' || e == '\\' {
        push_chr(st, s, '\\')
    } else if e == '-' {
        push_chr(st, s, '\u{2011}')
    } else if e == '\'' {
        push_text(st, s, if st.device == Device::Utf8 { "\u{00B4}"@ } else { "'"@ })
    } else if e == '&' || e == ')' {
        ScanView { has_content: true, ..push_mark(st, s, '\u{E000}') }
    } else if e == '~' || e == ' ' || e == '0' {
        push_chr(st, s, ' ')
    } else if e == '%' {
        push_mark(st, s, '\u{E001}')
    } else if e == '|' || e == '^' {
        push_mark(st, s, '\u{E000}')
    } else if e == ':' || e == 'a' || e == 'd' || e == 'u' || e == 'r' || e == ',' || e == '/' {
        s
    } else if e == 't' {
        push_chr(st, s, '\t')
    } else {
        push_chr(st, s, e)
    }
}

/// Whether an escape skips a delimited argument.
pub open spec fn skips_delimited(e: char) -> bool {
    e == 'v' || e == 'x' || e == 'l' || e == 'L' || e == 'D' || e == 'b' || e == 'o' || e == 'X' || e == 'Z'
}

/// The escapes that read more of the text: the scan after them and where
/// reading goes on; `j` is just past the escape's letter.
pub open spec fn reading_escape(
    st: TextStyleView,
    m: Seq<Option<i64>>,
    t: Seq<char>,
    j: int,
    e: char,
    s: ScanView,
) -> (ScanView, int) {
    if e == 'f' {
        let (name, j2) = escape_name_spec(t, j);
        (font_escape(st, s, name), j2)
    } else if e == '(' {
        if j + 1 < t.len() {
            (push_special(st, s, t.subrange(j, j + 2)), j + 2)
        } else {
            (s, j)
        }
    } else if e == '[' {
        let e2 = crate::patch::stop_at(t, ']', j);
        (push_special(st, s, t.subrange(j, e2)), if e2 < t.len() { e2 + 1 } else { e2 })
    } else if e == 'C' {
        match delim_arg_spec(t, j) {
            Some((a, j2)) => (push_special(st, s, a), j2),
            None => (s, j),
        }
    } else if e == 'h' {
        match delim_arg_spec(t, j) {
            Some((a, j2)) => (motion_escape(st, m, s, a), j2),
            None => (s, j),
        }
    } else if skips_delimited(e) {
        match delim_arg_spec(t, j) {
            Some((a, j2)) => (s, j2),
            None => (s, j),
        }
    } else if e == 'k' {
        (s, escape_name_spec(t, j).1)
    } else if e == 's' {
        (s, size_escape_end(t, j))
    } else if e == 'z' {
        if j < t.len() {
            (ScanView { has_content: true, ..push_mark(st, s, t[j]) }, j + 1)
        } else {
            (s, j)
        }
    } else if e == 'm' || e == 'M' {
        if j < t.len() && (t[j] == '[' || t[j] == '(') {
            (s, escape_name_spec(t, j).1)
        } else if j < t.len() {
            (s, j + 1)
        } else {
            (s, j)
        }
    } else {
        (s, j)
    }
}

/// Whether an escape reads more of the text.
pub open spec fn is_reading_escape(e: char) -> bool {
    e == 'f' || e == '(' || e == '[' || e == 'C' || e == 'h' || skips_delimited(e) || e == 'k' || e == 's'
        || e == 'z' || e == 'm' || e == 'M'
}

/// An escape `\e` whose letter ends before `j`.
pub open spec fn escape(st: TextStyleView, m: Seq<Option<i64>>, t: Seq<char>, j: int, e: char, s: ScanView) -> (
    ScanView,
    int,
) {
    if e == 'c' {
        (ScanView { connect: true, stopped: true, ..s }, j)
    } else if e == '"' || e == '#' {
        (ScanView { stopped: true, ..s }, j)
    } else if e == 'p' {
        let s1 = end_word(st, s, 1);
        (ScanView { breaks: s1.breaks.push(s1.words.len() as usize), extent: 0, base: 0, ..s1 }, j)
    } else if is_reading_escape(e) {
        reading_escape(st, m, t, j, e, s)
    } else {
        (text_escape(st, s, e), j)
    }
}

/// One step of the scan from `i`: the scan after it and where it goes on.
pub open spec fn step(st: TextStyleView, m: Seq<Option<i64>>, t: Seq<char>, i: int, s: ScanView) -> (ScanView, int) {
    let c = t[i];
    if c == ' ' {
        let e = blank_end(t, i);
        if st.fill {
            (end_word(st, s, sat(e - i)), e)
        } else {
            (ScanView { has_content: true, ..push_blank(st, s, (e - i) as nat) }, e)
        }
    } else if c == '\t' {
        if st.fill {
            (end_word(st, s, 1), i + 1)
        } else {
            (tab(st, s), i + 1)
        }
    } else if c == '\\' {
        if i + 1 >= t.len() {
            (ScanView { stopped: true, ..s }, i + 1)
        } else {
            escape(st, m, t, i + 2, t[i + 1], s)
        }
    } else {
        (push_chr(st, s, c), i + 1)
    }
}

/// The scan of `t` from `i` until it ends or stops.
pub open spec fn run(st: TextStyleView, m: Seq<Option<i64>>, t: Seq<char>, i: int, s: ScanView) -> ScanView
    decreases t.len() - i,
{
    if s.stopped || i < 0 || i >= t.len() {
        s
    } else {
        let (s2, i2) = step(st, m, t, i, s);
        let k = if i2 > t.len() { t.len() as int } else { i2 };
        if k > i {
            run(st, m, t, k, s2)
        } else {
            s2
        }
    }
}

/// The scan at the start of a line.
pub open spec fn scan_start(st: TextStyleView) -> ScanView {
    ScanView {
        words: Seq::empty(),
        breaks: Seq::empty(),
        cur: Seq::empty(),
        cur_width: 0,
        has_content: false,
        style_open: false,
        gap_next: 0,
        font: st.font,
        prev_font: st.prev_font,
        connect: st.pending_connect,
        stopped: false,
        extent: 0,
        base: st.line_width,
        hargs: Seq::empty(),
    }
}

/// Where the words after the last break start.
pub open spec fn last_break(s: ScanView) -> int {
    if s.breaks.len() == 0 {
        0
    } else {
        s.breaks.last() as int
    }
}

/// The end of the scan: the last word ends, and unless the line goes on
/// after `\c`, the last word after the last break ends a sentence when
/// its text does.
pub open spec fn finish(st: TextStyleView, s: ScanView) -> ScanView {
    let e = end_word(st, s, 0);
    if !e.connect && e.words.len() > last_break(e) {
        let k = e.words.len() - 1;
        let w = e.words[k];
        ScanView { words: e.words.update(k, WordView { sentence_end: sentence_end_spec(w.text), ..w }), ..e }
    } else {
        e
    }
}

/// The words of `t` and what becomes of the typesetter's fonts and `\c`
/// state, the `\h` motions taken from `m` in turn.
pub open spec fn render_spec(st: TextStyleView, t: Seq<char>, m: Seq<Option<i64>>) -> (
    TextStyleView,
    (Seq<WordView>, Seq<usize>),
) {
    let f = finish(st, run(st, m, t, 0, scan_start(st)));
    (TextStyleView { font: f.font, prev_font: f.prev_font, pending_connect: f.connect, ..st }, (f.words, f.breaks))
}

/// The arguments of the `\h` escapes that the scan of `t` reads, in order.
pub open spec fn motion_args_spec(st: TextStyleView, t: Seq<char>) -> Seq<Seq<char>> {
    run(st, Seq::empty(), t, 0, scan_start(st)).hargs
}


/// The scan of a line as it runs.
struct Scan {
    words: Vec<Word>,
    breaks: Vec<usize>,
    cur: String,
    cur_width: usize,
    has_content: bool,
    style_open: bool,
    gap_next: usize,
    font: char,
    prev_font: char,
    connect: bool,
    stopped: bool,
    extent: usize,
    base: usize,
    hargs: Vec<String>,
}

/// The views of a list of strings.
pub open spec fn texts_view(v: Seq<String>) -> Seq<Seq<char>> {
    v.map_values(|x: String| x@)
}

impl View for Scan {
    type V = ScanView;

    closed spec fn view(&self) -> ScanView {
        ScanView {
            words: words_view(self.words@),
            breaks: self.breaks@,
            cur: self.cur@,
            cur_width: self.cur_width,
            has_content: self.has_content,
            style_open: self.style_open,
            gap_next: self.gap_next,
            font: self.font,
            prev_font: self.prev_font,
            connect: self.connect,
            stopped: self.stopped,
            extent: self.extent,
            base: self.base,
            hargs: texts_view(self.hargs@),
        }
    }
}

/// The SGR code that starts a font.
fn style_on(styled: bool, font: char) -> (r: &'static str)
    ensures
        r@ == style_on_spec(styled, font),
{
    if !styled {
        ""
    } else if font == 'B' {
        "\x1b[1m"
    } else if font == 'I' {
        "\x1b[4m"
    } else if font == 'X' {
        "\x1b[1m\x1b[4m"
    } else {
        ""
    }
}

/// The SGR code that ends a font.
fn style_off(styled: bool, font: char) -> (r: &'static str)
    ensures
        r@ == style_off_spec(styled, font),
{
    if styled && (font == 'B' || font == 'I' || font == 'X') {
        "\x1b[0m"
    } else {
        ""
    }
}

/// The font a `\f` name selects.
pub fn map_font_name(name: &str) -> (r: char)
    ensures
        r == font_of(name@),
{
    let v = chars_of(name);
    let b = contains_char(&v, 'B');
    let i = contains_char(&v, 'I');
    if b && i {
        'X'
    } else if b {
        'B'
    } else if i {
        'I'
    } else if crate::text::chars_eq_str(&v, "1") {
        'R'
    } else if crate::text::chars_eq_str(&v, "2") {
        'I'
    } else if crate::text::chars_eq_str(&v, "3") {
        'B'
    } else if crate::text::chars_eq_str(&v, "4") {
        'X'
    } else if crate::text::chars_eq_str(&v, "P") {
        'P'
    } else {
        'R'
    }
}

impl Scan {
    fn start(st: &TextStyle) -> (r: Scan)
        ensures
            r@ == scan_start(st@),
    {
        let r = Scan {
            words: Vec::new(),
            breaks: Vec::new(),
            cur: String::new(),
            cur_width: 0,
            has_content: false,
            style_open: false,
            gap_next: 0,
            font: st.font,
            prev_font: st.prev_font,
            connect: st.pending_connect,
            stopped: false,
            extent: 0,
            base: st.line_width,
            hargs: Vec::new(),
        };
        proof {
            assert(words_view(r.words@) =~= Seq::empty());
            assert(texts_view(r.hargs@) =~= Seq::empty());
            assert(r@ =~= scan_start(st@));
        }
        r
    }

    fn open_style(&mut self, st: &TextStyle)
        ensures
            final(self)@ == open_style(st@, old(self)@),
    {
        if !self.style_open && self.font != 'R' {
            self.cur.append(style_on(st.styled, self.font));
            self.style_open = true;
        }
        proof {
            assert(self@ =~= open_style(st@, old(self)@));
        }
    }

    fn close_style(&mut self, st: &TextStyle)
        ensures
            final(self)@ == close_style(st@, old(self)@),
    {
        if self.style_open {
            self.cur.append(style_off(st.styled, self.font));
            self.style_open = false;
        }
        proof {
            assert(self@ =~= close_style(st@, old(self)@));
        }
    }

    fn push_chr(&mut self, st: &TextStyle, c: char)
        ensures
            final(self)@ == push_chr(st@, old(self)@, c),
    {
        self.open_style(st);
        push_char(&mut self.cur, c);
        self.cur_width = self.cur_width.saturating_add(char_width(c));
        self.has_content = true;
        proof {
            assert(self@ =~= push_chr(st@, old(self)@, c));
        }
    }

    fn push_mark(&mut self, st: &TextStyle, c: char)
        ensures
            final(self)@ == push_mark(st@, old(self)@, c),
    {
        self.open_style(st);
        push_char(&mut self.cur, c);
        proof {
            assert(self@ =~= push_mark(st@, old(self)@, c));
        }
    }

    fn push_text(&mut self, st: &TextStyle, t: &str)
        ensures
            final(self)@ == push_text(st@, old(self)@, t@),
    {
        let v = chars_of(t);
        if v.len() == 0 {
            return;
        }
        self.open_style(st);
        let ghost o = self@;
        self.cur.append(t);
        let mut w = self.cur_width;
        let mut k: usize = 0;
        proof {
            assert(v@.skip(0) =~= v@);
        }
        while k < v.len()
            invariant
                k <= v@.len(),
                v@ == t@,
                text_width(w, v@.skip(k as int)) == text_width(o.cur_width, v@),
            decreases v.len() - k,
        {
            proof {
                assert(v@.skip(k as int).drop_first() =~= v@.skip(k + 1));
            }
            w = w.saturating_add(char_width(v[k]));
            k += 1;
        }
        proof {
            assert(v@.skip(k as int) =~= Seq::<char>::empty());
        }
        self.cur_width = w;
        self.has_content = true;
        proof {
            assert(self@ =~= push_text(st@, old(self)@, t@));
        }
    }

    fn push_blank(&mut self, st: &TextStyle, n: u64)
        ensures
            final(self)@ == push_blank(st@, old(self)@, n as nat),
    {
        if n == 0 {
            return;
        }
        self.open_style(st);
        let ghost o = self@;
        let mut k: u64 = 0;
        while k < n
            invariant
                k <= n,
                self.cur@ == o.cur + spaces(k as nat),
                self.cur_width == sat(o.cur_width + k),
                self@ == (ScanView { cur: self.cur@, cur_width: self.cur_width, ..o }),
            decreases n - k,
        {
            push_char(&mut self.cur, ' ');
            self.cur_width = self.cur_width.saturating_add(1);
            proof {
                assert(spaces((k + 1) as nat) =~= spaces(k as nat).push(' '));
            }
            k += 1;
            proof {
                assert(self@ =~= (ScanView { cur: self.cur@, cur_width: self.cur_width, ..o }));
            }
        }
        proof {
            assert(self@ =~= push_blank(st@, old(self)@, n as nat));
        }
    }

    fn end_word(&mut self, st: &TextStyle, g: usize)
        ensures
            final(self)@ == end_word(st@, old(self)@, g),
    {
        self.close_style(st);
        let ghost c = self@;
        if self.has_content || self.cur.as_str().unicode_len() > 0 {
            let gap: usize = if self.gap_next >= 1 { self.gap_next } else { 1 };
            let mut text = String::new();
            std::mem::swap(&mut text, &mut self.cur);
            let w = Word { text, width: self.cur_width, gap, sentence_end: false, adjustable: true };
            let ghost ws = self.words@;
            self.words.push(w);
            proof {
                assert(words_view(self.words@) =~= words_view(ws).push(w@));
            }
            self.extent = self.extent.saturating_add(self.cur_width).saturating_add(gap);
            self.gap_next = g;
        } else {
            self.gap_next = self.gap_next.saturating_add(g);
            self.cur = String::new();
        }
        self.cur_width = 0;
        self.has_content = false;
        proof {
            assert(self@ =~= end_word(st@, old(self)@, g));
        }
    }
}


/// Where the run of spaces from `i` ends.
fn blank_run_end(t: &[char], i: usize) -> (r: usize)
    requires
        i <= t.len(),
    ensures
        r as int == blank_end(t@, i as int),
        i <= r <= t.len(),
{
    let mut j = i;
    while j < t.len() && t[j] == ' '
        invariant
            i <= j <= t.len(),
            blank_end(t@, j as int) == blank_end(t@, i as int),
        decreases t.len() - j,
    {
        j += 1;
    }
    j
}

/// The first tab stop beyond `pos`, else the column after it.
fn next_tab_stop(stops: &Vec<usize>, pos: usize) -> (r: usize)
    ensures
        r == next_stop(stops@, pos, 0),
{
    let mut k: usize = 0;
    while k < stops.len()
        invariant
            k <= stops@.len(),
            next_stop(stops@, pos, k as int) == next_stop(stops@, pos, 0),
        decreases stops.len() - k,
    {
        if stops[k] > pos {
            return stops[k];
        }
        k += 1;
    }
    pos.saturating_add(1)
}

/// Whether an escape skips a delimited argument.
fn is_skipping(e: char) -> (r: bool)
    ensures
        r == skips_delimited(e),
{
    e == 'v' || e == 'x' || e == 'l' || e == 'L' || e == 'D' || e == 'b' || e == 'o' || e == 'X' || e == 'Z'
}

/// Whether an escape reads more of the text.
fn is_reading(e: char) -> (r: bool)
    ensures
        r == is_reading_escape(e),
{
    e == 'f' || e == '(' || e == '[' || e == 'C' || e == 'h' || is_skipping(e) || e == 'k' || e == 's' || e == 'z'
        || e == 'm' || e == 'M'
}

impl Scan {
    fn tab(&mut self, st: &TextStyle)
        ensures
            final(self)@ == tab(st@, old(self)@),
    {
        let pos = self.base.saturating_add(self.extent).saturating_add(self.cur_width);
        let stop = next_tab_stop(&st.tab_stops, pos);
        let n: usize = if stop > pos { stop - pos } else { 0 };
        self.push_blank(st, n as u64);
        self.has_content = true;
        proof {
            assert(self@ =~= tab(st@, old(self)@));
        }
    }

    fn push_special(&mut self, st: &TextStyle, name: &str)
        ensures
            final(self)@ == push_special(st@, old(self)@, name@),
    {
        match special_char(name, st.device) {
            Some(x) => self.push_text(st, x.as_str()),
            None => {},
        }
    }

    fn font_escape(&mut self, st: &TextStyle, name: &str)
        ensures
            final(self)@ == font_escape(st@, old(self)@, name@),
    {
        let newf = if crate::text::str_eq(name, "P") {
            self.prev_font
        } else {
            map_font_name(name)
        };
        if newf != self.font {
            let old_font = self.font;
            self.close_style(st);
            self.prev_font = old_font;
            self.font = newf;
        }
        proof {
            assert(self@ =~= font_escape(st@, old(self)@, name@));
        }
    }

    fn motion_escape(&mut self, st: &TextStyle, m: &[Option<i64>], a: String)
        ensures
            final(self)@ == motion_escape(st@, m@, old(self)@, a@),
    {
        let mv = if self.hargs.len() < m.len() {
            m[self.hargs.len()]
        } else {
            None
        };
        let ghost hs = self.hargs@;
        let ghost a_view = a@;
        self.hargs.push(a);
        proof {
            assert(texts_view(self.hargs@) =~= texts_view(hs).push(a_view));
        }
        match mv {
            Some(n) => {
                let k: u64 = if n > 0 { n as u64 } else { 0 };
                self.push_blank(st, k);
                self.has_content = true;
            },
            None => {},
        }
        proof {
            assert(self@ =~= motion_escape(st@, m@, old(self)@, a_view));
        }
    }

    fn text_escape(&mut self, st: &TextStyle, e: char)
        ensures
            final(self)@ == text_escape(st@, old(self)@, e),
    {
        if e == 'e' || e == '\\' {
            self.push_chr(st, '\\');
        } else if e == '-' {
            self.push_chr(st, '\u{2011}');
        } else if e == '\'' {
            if st.device == Device::Utf8 {
                self.push_text(st, "\u{00B4}");
            } else {
                self.push_text(st, "'");
            }
        } else if e == '&' || e == ')' {
            self.push_mark(st, '\u{E000}');
            self.has_content = true;
        } else if e == '~' || e == ' ' || e == '0' {
            self.push_chr(st, ' ');
        } else if e == '%' {
            self.push_mark(st, '\u{E001}');
        } else if e == '|' || e == '^' {
            self.push_mark(st, '\u{E000}');
        } else if e == ':' || e == 'a' || e == 'd' || e == 'u' || e == 'r' || e == ',' || e == '/' {
        } else if e == 't' {
            self.push_chr(st, '\t');
        } else {
            self.push_chr(st, e);
        }
        proof {
            assert(self@ =~= text_escape(st@, old(self)@, e));
        }
    }

    #[verifier::rlimit(40)]
    fn reading_escape(&mut self, st: &TextStyle, m: &[Option<i64>], t: &[char], j: usize, e: char) -> (r: usize)
        requires
            j <= t.len(),
            t.len() + 3 <= usize::MAX,
            is_reading_escape(e),
        ensures
            final(self)@ == reading_escape(st@, m@, t@, j as int, e, old(self)@).0,
            r as int == reading_escape(st@, m@, t@, j as int, e, old(self)@).1,
    {
        let mut k = j;
        if e == 'f' {
            let name = read_escape_name(t, &mut k);
            self.font_escape(st, name.as_str());
            k
        } else if e == '(' {
            if j + 1 < t.len() {
                let name = string_of(&slice_chars(t, j, j + 2));
                self.push_special(st, name.as_str());
                j + 2
            } else {
                j
            }
        } else if e == '[' {
            let mut q = j;
            while q < t.len() && t[q] != ']'
                invariant
                    j <= q <= t.len(),
                    crate::patch::stop_at(t@, ']', q as int) == crate::patch::stop_at(t@, ']', j as int),
                decreases t.len() - q,
            {
                q += 1;
            }
            let name = string_of(&slice_chars(t, j, q));
            self.push_special(st, name.as_str());
            if q < t.len() {
                q + 1
            } else {
                q
            }
        } else if e == 'C' {
            match read_delim_arg(t, &mut k) {
                Some(a) => {
                    self.push_special(st, a.as_str());
                    k
                },
                None => j,
            }
        } else if e == 'h' {
            match read_delim_arg(t, &mut k) {
                Some(a) => {
                    self.motion_escape(st, m, a);
                    k
                },
                None => j,
            }
        } else if is_skipping(e) {
            let _ = read_delim_arg(t, &mut k);
            k
        } else if e == 'k' {
            let _ = read_escape_name(t, &mut k);
            k
        } else if e == 's' {
            consume_size_escape(t, &mut k);
            k
        } else if e == 'z' {
            if j < t.len() {
                self.push_mark(st, t[j]);
                self.has_content = true;
                proof {
                    assert(self@ =~= reading_escape(st@, m@, t@, j as int, e, old(self)@).0);
                }
                j + 1
            } else {
                j
            }
        } else {
            if j < t.len() && (t[j] == '[' || t[j] == '(') {
                let _ = read_escape_name(t, &mut k);
                k
            } else if j < t.len() {
                j + 1
            } else {
                j
            }
        }
    }

    fn escape(&mut self, st: &TextStyle, m: &[Option<i64>], t: &[char], j: usize, e: char) -> (r: usize)
        requires
            j <= t.len(),
            t.len() + 3 <= usize::MAX,
        ensures
            final(self)@ == escape(st@, m@, t@, j as int, e, old(self)@).0,
            r as int == escape(st@, m@, t@, j as int, e, old(self)@).1,
    {
        if e == 'c' {
            self.connect = true;
            self.stopped = true;
            proof {
                assert(self@ =~= escape(st@, m@, t@, j as int, e, old(self)@).0);
            }
            j
        } else if e == '"' || e == '#' {
            self.stopped = true;
            proof {
                assert(self@ =~= escape(st@, m@, t@, j as int, e, old(self)@).0);
            }
            j
        } else if e == 'p' {
            self.end_word(st, 1);
            let n = self.words.len();
            self.breaks.push(n);
            self.extent = 0;
            self.base = 0;
            proof {
                assert(self@ =~= escape(st@, m@, t@, j as int, e, old(self)@).0);
            }
            j
        } else if is_reading(e) {
            self.reading_escape(st, m, t, j, e)
        } else {
            self.text_escape(st, e);
            j
        }
    }

    fn step(&mut self, st: &TextStyle, m: &[Option<i64>], t: &[char], i: usize) -> (r: usize)
        requires
            i < t.len(),
            t.len() + 3 <= usize::MAX,
        ensures
            final(self)@ == step(st@, m@, t@, i as int, old(self)@).0,
            r as int == step(st@, m@, t@, i as int, old(self)@).1,
    {
        let c = t[i];
        if c == ' ' {
            let e = blank_run_end(t, i);
            if st.fill {
                self.end_word(st, e - i);
            } else {
                self.push_blank(st, (e - i) as u64);
                self.has_content = true;
                proof {
                    assert(self@ =~= step(st@, m@, t@, i as int, old(self)@).0);
                }
            }
            e
        } else if c == '\t' {
            if st.fill {
                self.end_word(st, 1);
            } else {
                self.tab(st);
            }
            i + 1
        } else if c == '\\' {
            if i + 1 >= t.len() {
                self.stopped = true;
                proof {
                    assert(self@ =~= step(st@, m@, t@, i as int, old(self)@).0);
                }
                i + 1
            } else {
                self.escape(st, m, t, i + 2, t[i + 1])
            }
        } else {
            self.push_chr(st, c);
            i + 1
        }
    }
}


/// Runs the scan of `t` to its end.
fn scan_line(st: &TextStyle, t: &[char], m: &[Option<i64>]) -> (r: Scan)
    requires
        t.len() + 3 <= usize::MAX,
    ensures
        r@ == run(st@, m@, t@, 0, scan_start(st@)),
{
    let mut sc = Scan::start(st);
    let mut i: usize = 0;
    while i < t.len() && !sc.stopped
        invariant
            i <= t.len(),
            t.len() + 3 <= usize::MAX,
            run(st@, m@, t@, i as int, sc@) == run(st@, m@, t@, 0, scan_start(st@)),
        decreases t.len() - i,
    {
        let r = sc.step(st, m, t, i);
        let k = if r > t.len() {
            t.len()
        } else {
            r
        };
        if k > i {
            i = k;
        } else {
            i = t.len();
        }
    }
    sc
}

impl Scan {
    /// Ends the scan: the last word ends and may end a sentence.
    fn finish(&mut self, st: &TextStyle)
        ensures
            final(self)@ == finish(st@, old(self)@),
    {
        self.end_word(st, 0);
        let ghost e = self@;
        let nb = self.breaks.len();
        let last: usize = if nb == 0 {
            0
        } else {
            self.breaks[nb - 1]
        };
        if !self.connect && self.words.len() > last {
            let ghost ws = self.words@;
            let w = self.words.pop().unwrap();
            let se = is_sentence_end(w.text.as_str());
            let w2 = Word { sentence_end: se, ..w };
            self.words.push(w2);
            proof {
                assert(ws =~= self.words@.drop_last().push(w));
                assert(words_view(self.words@) =~= words_view(ws).update(ws.len() - 1, w2@));
                assert(self@ =~= finish(st@, old(self)@));
            }
        }
    }
}

impl TextStyle {
    /// Turns a line of text into words. The `k`-th `\h` escape that the
    /// scan reads moves by `motions[k]` columns where that is `Some` (none
    /// where it is `None` or missing); `motion_args` gives their arguments.
    pub fn render_words(&mut self, text: &str, motions: &[Option<i64>]) -> (r: Rendered)
        requires
            text@.len() + 3 <= usize::MAX,
        ensures
            final(self)@ == render_spec(old(self)@, text@, motions@).0,
            r@ == render_spec(old(self)@, text@, motions@).1,
    {
        let t = chars_of(text);
        let mut sc = scan_line(self, &t, motions);
        sc.finish(self);
        self.font = sc.font;
        self.prev_font = sc.prev_font;
        self.pending_connect = sc.connect;
        let r = Rendered { words: sc.words, breaks: sc.breaks };
        proof {
            assert(self@ =~= render_spec(old(self)@, text@, motions@).0);
        }
        r
    }

    /// The arguments of the `\h` escapes that rendering `text` reads, in
    /// order.
    pub fn motion_args(&self, text: &str) -> (r: Vec<String>)
        requires
            text@.len() + 3 <= usize::MAX,
        ensures
            texts_view(r@) == motion_args_spec(self@, text@),
    {
        let t = chars_of(text);
        let none: Vec<Option<i64>> = Vec::new();
        proof {
            assert(none@ =~= Seq::<Option<i64>>::empty());
        }
        let sc = scan_line(self, &t, none.as_slice());
        sc.hargs
    }
}

} // verus!
