//! The state of the roff formatter and what its requests and the man
//! macros do to it: the layout (line length, indents, fill and adjust
//! modes, fonts, tab stops), the page flags, the tables of strings,
//! macros and number registers, the man page state, and the conditions.
//! What a request sets in motion outside the state (printing the pending
//! line, running a line or a file, reading a definition) is returned as
//! a list of effects.
use vstd::prelude::*;
use crate::groff::fill::{Adjust, adjust_spec, adjust_of, ta_spec, ta_fits, tab_stops_of, tab_stops_fit};
use crate::groff::indent::{Indents, IndentsView, re_spec, BODY_INDENT};
use crate::groff::page::{PageOutput, PageOutputView};
use crate::groff::render::font_of;
use crate::groff::macros::{alt_fonts_spec, alt_fonts, macro_font_spec, macro_font};
use crate::groff::section_name_spec;
use crate::text::{str_eq, chars_of, parse_int_spec, parse_usize, parse_i64, string_of};
use crate::find::expression::strings_view;

verus! {

/// Where the name `k` stands in a table from `i` on.
pub open spec fn key_index_from<W>(t: Seq<(Seq<char>, W)>, k: Seq<char>, i: int) -> Option<int>
    decreases t.len() - i,
{
    if i < 0 || i >= t.len() {
        None
    } else if t[i].0 == k {
        Some(i)
    } else {
        key_index_from(t, k, i + 1)
    }
}

/// Where the name `k` stands in a table.
pub open spec fn key_index<W>(t: Seq<(Seq<char>, W)>, k: Seq<char>) -> Option<int> {
    key_index_from(t, k, 0)
}

/// The value of the name `k` in a table.
pub open spec fn table_get<W>(t: Seq<(Seq<char>, W)>, k: Seq<char>) -> Option<W> {
    match key_index(t, k) {
        Some(i) => Some(t[i].1),
        None => None,
    }
}

/// A table with `k` set to `v`: in place where it is defined, else added
/// at the end.
pub open spec fn table_set<W>(t: Seq<(Seq<char>, W)>, k: Seq<char>, v: W) -> Seq<(Seq<char>, W)> {
    match key_index(t, k) {
        Some(i) => t.update(i, (k, v)),
        None => t.push((k, v)),
    }
}

/// A table without the name `k`.
pub open spec fn table_remove<W>(t: Seq<(Seq<char>, W)>, k: Seq<char>) -> Seq<(Seq<char>, W)> {
    match key_index(t, k) {
        Some(i) => t.remove(i),
        None => t,
    }
}

/// No name stands twice in a table.
pub open spec fn keys_unique<W>(t: Seq<(Seq<char>, W)>) -> bool {
    forall|i: int, j: int| 0 <= i < j < t.len() ==> #[trigger] t[i].0 != #[trigger] t[j].0
}

/// A table of names and values as values.
pub open spec fn table_view<V: View>(t: Seq<(String, V)>) -> Seq<(Seq<char>, V::V)> {
    t.map_values(|e: (String, V)| (e.0@, e.1@))
}

proof fn lemma_key_index_from<W>(t: Seq<(Seq<char>, W)>, k: Seq<char>, i: int)
    requires
        0 <= i <= t.len(),
    ensures
        match key_index_from(t, k, i) {
            Some(j) => i <= j < t.len() && t[j].0 == k && forall|q: int| i <= q < j ==> t[q].0 != k,
            None => forall|q: int| i <= q < t.len() ==> t[q].0 != k,
        },
    decreases t.len() - i,
{
    if i < t.len() {
        lemma_key_index_from(t, k, i + 1);
    }
}

/// Setting a name keeps the names unique, and the name then has the
/// value set.
pub proof fn lemma_set_unique<W>(t: Seq<(Seq<char>, W)>, k: Seq<char>, v: W)
    requires
        keys_unique(t),
    ensures
        keys_unique(table_set(t, k, v)),
        table_get(table_set(t, k, v), k) == Some(v),
{
    lemma_key_index_from(t, k, 0);
    let r = table_set(t, k, v);
    lemma_key_index_from(r, k, 0);
    match key_index(t, k) {
        Some(i) => {
            assert forall|a: int, b: int| 0 <= a < b < r.len() implies #[trigger] r[a].0 != #[trigger] r[b].0 by {
                assert(t[a].0 != t[b].0);
            }
            assert(r[i].0 == k);
            assert forall|q: int| 0 <= q < i implies r[q].0 != k by {
                assert(r[q] == t[q]);
            }
        },
        None => {
            assert(r[t.len() as int].0 == k);
            assert forall|q: int| 0 <= q < t.len() implies r[q].0 != k by {
                assert(r[q] == t[q]);
            }
            assert forall|a: int, b: int| 0 <= a < b < r.len() implies #[trigger] r[a].0 != #[trigger] r[b].0 by {
                if b < t.len() {
                    assert(t[a].0 != t[b].0);
                }
            }
        },
    }
}

/// Removing a name keeps the names unique, and the name is gone.
pub proof fn lemma_remove_unique<W>(t: Seq<(Seq<char>, W)>, k: Seq<char>)
    requires
        keys_unique(t),
    ensures
        keys_unique(table_remove(t, k)),
        table_get(table_remove(t, k), k) is None,
{
    lemma_key_index_from(t, k, 0);
    let r = table_remove(t, k);
    match key_index(t, k) {
        Some(i) => {
            assert forall|a: int, b: int| 0 <= a < b < r.len() implies #[trigger] r[a].0 != #[trigger] r[b].0 by {
                let a2 = if a < i { a } else { a + 1 };
                let b2 = if b < i { b } else { b + 1 };
                assert(r[a] == t[a2]);
                assert(r[b] == t[b2]);
                assert(t[a2].0 != t[b2].0);
            }
            assert forall|q: int| 0 <= q < r.len() implies r[q].0 != k by {
                let q2 = if q < i { q } else { q + 1 };
                assert(r[q] == t[q2]);
                if q2 != i {
                    assert(t[q2].0 != t[i].0);
                }
            }
        },
        None => {},
    }
    lemma_key_index_from(r, k, 0);
}

/// Where the name `k` stands in a table.
pub fn find_key<V: View>(t: &Vec<(String, V)>, k: &str) -> (r: Option<usize>)
    ensures
        match r {
            Some(i) => key_index(table_view(t@), k@) == Some(i as int),
            None => key_index(table_view(t@), k@) is None,
        },
{
    let ghost tv = table_view(t@);
    let mut i: usize = 0;
    while i < t.len()
        invariant
            i <= t@.len(),
            tv == table_view(t@),
            key_index_from(tv, k@, i as int) == key_index(tv, k@),
        decreases t.len() - i,
    {
        if str_eq(t[i].0.as_str(), k) {
            return Some(i);
        }
        i += 1;
    }
    None
}

/// Sets `k` to `v` in a table.
pub fn table_insert<V: View>(t: &mut Vec<(String, V)>, k: String, v: V)
    ensures
        table_view(final(t)@) == table_set(table_view(old(t)@), k@, v@),
{
    let ghost t0 = table_view(t@);
    let ghost kv = k@;
    let ghost vv = v@;
    proof {
        lemma_key_index_from(t0, kv, 0);
    }
    match find_key(t, k.as_str()) {
        Some(i) => {
            t.set(i, (k, v));
            proof {
                assert(table_view(t@) =~= t0.update(i as int, (kv, vv)));
            }
        },
        None => {
            t.push((k, v));
            proof {
                assert(table_view(t@) =~= t0.push((kv, vv)));
            }
        },
    }
}

/// Removes `k` from a table.
pub fn table_delete<V: View>(t: &mut Vec<(String, V)>, k: &str)
    ensures
        table_view(final(t)@) == table_remove(table_view(old(t)@), k@),
{
    let ghost t0 = table_view(t@);
    proof {
        lemma_key_index_from(t0, k@, 0);
    }
    match find_key(t, k) {
        Some(i) => {
            t.remove(i);
            proof {
                assert(table_view(t@) =~= t0.remove(i as int));
            }
        },
        None => {},
    }
}

/// The title of a man page, as `.TH` gives it.
#[derive(Debug, Clone)]
pub struct Title {
    pub title: String,
    pub section: String,
    pub date: String,
    pub source: String,
    pub manual: String,
}

/// The state of the formatter.
pub struct Roff {
    /// Line length in columns.
    pub ll: usize,
    pub ind: Indents,
    pub fill: bool,
    pub adjust: Adjust,
    /// Lines still to center (`.ce`).
    pub ce_count: usize,
    /// Lines still to underline (`.ul`).
    pub ul_count: usize,
    pub font: char,
    pub prev_font: char,
    /// The extra space after a sentence (`.ss`), 0 or 1.
    pub sentence_gap_extra: usize,
    /// Hyphenation on.
    pub hy: bool,
    pub tab_stops: Vec<usize>,
    /// Blank lines between paragraphs (`.PD`).
    pub pd: usize,
    pub page: PageOutput,
    pub strings: Vec<(String, String)>,
    pub macros: Vec<(String, Vec<String>)>,
    pub registers: Vec<(String, i64)>,
    /// Auto-increments of the registers.
    pub reg_steps: Vec<(String, i64)>,
    pub th: Option<Title>,
    /// The indent of a `.TP`/`.IP` tag waiting for its text.
    pub tag_pending: Option<usize>,
    /// The font `.B`/`.I` without arguments sets for the next line.
    pub next_line_font: Option<char>,
    /// The column of a heading whose text comes on the next line.
    pub pending_heading: Option<usize>,
    /// The address of `.UR`/`.MT`, set when `.UE`/`.ME` comes.
    pub link_url: Option<String>,
    /// The conditions of `.ie` for the `.el` to come.
    pub el_stack: Vec<bool>,
    pub diverting: bool,
    pub exited: bool,
}

/// The state of the formatter as values.
#[verifier::ext_equal]
pub struct RoffView {
    pub ll: usize,
    pub ind: IndentsView,
    pub fill: bool,
    pub adjust: Adjust,
    pub ce_count: usize,
    pub ul_count: usize,
    pub font: char,
    pub prev_font: char,
    pub sentence_gap_extra: usize,
    pub hy: bool,
    pub tab_stops: Seq<usize>,
    pub pd: usize,
    pub page: PageOutputView,
    pub strings: Seq<(Seq<char>, Seq<char>)>,
    pub macros: Seq<(Seq<char>, Seq<String>)>,
    pub registers: Seq<(Seq<char>, i64)>,
    pub reg_steps: Seq<(Seq<char>, i64)>,
    pub th: Option<Title>,
    pub tag_pending: Option<usize>,
    pub next_line_font: Option<char>,
    pub pending_heading: Option<usize>,
    pub link_url: Option<Seq<char>>,
    pub el_stack: Seq<bool>,
    pub diverting: bool,
    pub exited: bool,
}

impl View for Roff {
    type V = RoffView;

    open spec fn view(&self) -> RoffView {
        RoffView {
            ll: self.ll,
            ind: self.ind@,
            fill: self.fill,
            adjust: self.adjust,
            ce_count: self.ce_count,
            ul_count: self.ul_count,
            font: self.font,
            prev_font: self.prev_font,
            sentence_gap_extra: self.sentence_gap_extra,
            hy: self.hy,
            tab_stops: self.tab_stops@,
            pd: self.pd,
            page: self.page@,
            strings: table_view(self.strings@),
            macros: table_view(self.macros@),
            registers: table_view(self.registers@),
            reg_steps: table_view(self.reg_steps@),
            th: self.th,
            tag_pending: self.tag_pending,
            next_line_font: self.next_line_font,
            pending_heading: self.pending_heading,
            link_url: match self.link_url {
                Some(u) => Some(u@),
                None => None,
            },
            el_stack: self.el_stack@,
            diverting: self.diverting,
            exited: self.exited,
        }
    }
}

/// The state is well formed: no name stands twice in a table.
pub open spec fn roff_wf(s: RoffView) -> bool {
    &&& keys_unique(s.strings)
    &&& keys_unique(s.macros)
    &&& keys_unique(s.registers)
    &&& keys_unique(s.reg_steps)
}

impl Roff {
    /// Whether the state is well formed.
    pub open spec fn wf(&self) -> bool {
        roff_wf(self@)
    }
}


/// The output a request or macro makes before it changes the state.
#[derive(Debug, Clone, Copy, PartialEq, Eq, Structural)]
pub enum Before {
    Nothing,
    /// The pending line is printed, after adjusting is set to both
    /// margins where `adjust_both` holds.
    Flush { adjust_both: bool },
    /// `n` blank lines after the pending line (`.sp`).
    Space(usize),
    /// The space before a paragraph.
    ParaSpace { adjust_both: bool },
    /// Two blank lines after a heading (`.HP` right after `.SH`).
    DoubleBlank,
}

/// What a request or macro sets in motion besides its change of state.
#[derive(Debug, Clone)]
pub enum Effect {
    /// Runs `body` as input where `run` holds (`.if`, `.ie`, `.el`).
    RunBody { run: bool, body: String },
    /// Reads the lines up to `..` or `end` and defines (or appends to) the
    /// macro `name` with them.
    ReadDefinition { name: String, end: String, append: bool },
    /// Skips the lines up to `..` or `end` (`.ig`).
    SkipBlock { end: String },
    /// Skips the block of a `.while` loop, which starts with `rest`.
    SkipLoop { rest: String },
    /// Reads a file as input (`.so`).
    Source { path: String },
    /// Drops the first `count` macro arguments.
    Shift { count: usize },
    /// Leaves the macro being run.
    Return,
    /// Runs a line as input (`.nop`).
    RunLine { line: String },
    /// Runs a control line after interpolating it (`.do`).
    RunRequest { line: String },
    /// Writes a message to the error output.
    Message { text: String },
    /// Sets the header of a man page from these parts.
    Title { title: String, section: String, date: String, source: String, manual: String },
    /// Sets a heading at column `col`.
    Heading { text: String, col: usize },
    /// Sets `text` in `font`.
    EmitText { text: String, font: char },
    /// Sets the arguments in the two fonts in turn.
    EmitAlternating { args: Vec<String>, first: char, second: char },
    /// Sets the tag of `.IP`, rendered in `font`.
    Tag { tag: String, font: char },
    /// Clears the words of a tag.
    ClearTag,
    /// Sets a link.
    EmitLink { url: String, trailing: Option<String> },
    /// Starts a synopsis with the command `cmd`.
    Synopsis { cmd: String },
    /// Sets a bracketed option.
    EmitOption { opt: Option<String>, arg: Option<String> },
}

/// An effect as values.
pub enum EffectView {
    RunBody { run: bool, body: Seq<char> },
    ReadDefinition { name: Seq<char>, end: Seq<char>, append: bool },
    SkipBlock { end: Seq<char> },
    SkipLoop { rest: Seq<char> },
    Source { path: Seq<char> },
    Shift { count: usize },
    Return,
    RunLine { line: Seq<char> },
    RunRequest { line: Seq<char> },
    Message { text: Seq<char> },
    Title { title: Seq<char>, section: Seq<char>, date: Seq<char>, source: Seq<char>, manual: Seq<char> },
    Heading { text: Seq<char>, col: usize },
    EmitText { text: Seq<char>, font: char },
    EmitAlternating { args: Seq<Seq<char>>, first: char, second: char },
    Tag { tag: Seq<char>, font: char },
    ClearTag,
    EmitLink { url: Seq<char>, trailing: Option<Seq<char>> },
    Synopsis { cmd: Seq<char> },
    EmitOption { opt: Option<Seq<char>>, arg: Option<Seq<char>> },
}

/// An optional text as values.
pub open spec fn opt_view(o: Option<String>) -> Option<Seq<char>> {
    match o {
        Some(x) => Some(x@),
        None => None,
    }
}

impl View for Effect {
    type V = EffectView;

    open spec fn view(&self) -> EffectView {
        match self {
            Effect::RunBody { run, body } => EffectView::RunBody { run: *run, body: body@ },
            Effect::ReadDefinition { name, end, append } => EffectView::ReadDefinition {
                name: name@,
                end: end@,
                append: *append,
            },
            Effect::SkipBlock { end } => EffectView::SkipBlock { end: end@ },
            Effect::SkipLoop { rest } => EffectView::SkipLoop { rest: rest@ },
            Effect::Source { path } => EffectView::Source { path: path@ },
            Effect::Shift { count } => EffectView::Shift { count: *count },
            Effect::Return => EffectView::Return,
            Effect::RunLine { line } => EffectView::RunLine { line: line@ },
            Effect::RunRequest { line } => EffectView::RunRequest { line: line@ },
            Effect::Message { text } => EffectView::Message { text: text@ },
            Effect::Title { title, section, date, source, manual } => EffectView::Title {
                title: title@,
                section: section@,
                date: date@,
                source: source@,
                manual: manual@,
            },
            Effect::Heading { text, col } => EffectView::Heading { text: text@, col: *col },
            Effect::EmitText { text, font } => EffectView::EmitText { text: text@, font: *font },
            Effect::EmitAlternating { args, first, second } => EffectView::EmitAlternating {
                args: strings_view(args@),
                first: *first,
                second: *second,
            },
            Effect::Tag { tag, font } => EffectView::Tag { tag: tag@, font: *font },
            Effect::ClearTag => EffectView::ClearTag,
            Effect::EmitLink { url, trailing } => EffectView::EmitLink { url: url@, trailing: opt_view(*trailing) },
            Effect::Synopsis { cmd } => EffectView::Synopsis { cmd: cmd@ },
            Effect::EmitOption { opt, arg } => EffectView::EmitOption { opt: opt_view(*opt), arg: opt_view(*arg) },
        }
    }
}

/// The views of a list of effects.
pub open spec fn effects_view(v: Seq<Effect>) -> Seq<EffectView> {
    v.map_values(|e: Effect| e@)
}

/// The `k`-th argument, or nothing.
pub open spec fn arg(args: Seq<Seq<char>>, k: int) -> Seq<char> {
    if 0 <= k < args.len() { args[k] } else { Seq::empty() }
}

/// The `k`-th argument where there is one.
pub open spec fn opt_arg(args: Seq<Seq<char>>, k: int) -> Option<Seq<char>> {
    if 0 <= k < args.len() { Some(args[k]) } else { None }
}

/// The `k`-th evaluated length where there is one.
pub open spec fn len_at(lengths: Seq<Option<i64>>, k: int) -> Option<i64> {
    if 0 <= k < lengths.len() { lengths[k] } else { None }
}

/// A length as a count of columns or lines: none below zero.
pub open spec fn nonneg(v: i64) -> usize {
    if v <= 0 { 0 } else if v > usize::MAX { usize::MAX } else { v as usize }
}

/// A length argument as columns, where it was given and evaluated.
pub open spec fn len_cols(lengths: Seq<Option<i64>>, k: int) -> Option<usize> {
    match len_at(lengths, k) {
        Some(v) => Some(nonneg(v)),
        None => None,
    }
}

/// The arguments joined by single blanks.
pub open spec fn join_blank(args: Seq<Seq<char>>) -> Seq<char>
    decreases args.len(),
{
    if args.len() == 0 {
        Seq::empty()
    } else if args.len() == 1 {
        args[0]
    } else {
        join_blank(args.drop_last()) + seq![' '] + args.last()
    }
}

/// What `str::parse::<usize>` gives.
pub open spec fn parse_usize_spec(s: Seq<char>) -> Option<usize> {
    match parse_int_spec(s, 0, usize::MAX as int) {
        Some(v) => Some(v as usize),
        None => None,
    }
}

/// What `str::parse::<i64>` gives.
pub open spec fn parse_i64_spec(s: Seq<char>) -> Option<i64> {
    match parse_int_spec(s, i64::MIN as int, i64::MAX as int) {
        Some(v) => Some(v as i64),
        None => None,
    }
}

/// The sign of a relative length: `+1`, `-1`, or 0 for an absolute one.
pub open spec fn sign_of(t: Seq<char>) -> int {
    if t.len() > 0 && t[0] == '+' { 1 } else if t.len() > 0 && t[0] == '-' { -1 } else { 0 }
}

/// A length register (`.ll`, `.in`) after `tail`: the default without an
/// argument; else the evaluated length, added to or taken from the value
/// where it is signed, and never below zero.
pub open spec fn length_set(cur: usize, tail: Seq<char>, len: Option<i64>, default: usize) -> usize {
    if tail.len() == 0 {
        default
    } else {
        match len {
            Some(v) => {
                let s = sign_of(tail);
                let n: int = if s > 0 { cur + v } else if s < 0 { cur - v } else { v as int };
                if n <= 0 { 0 } else if n > usize::MAX { usize::MAX } else { n as usize }
            },
            None => cur,
        }
    }
}

/// The text after a sign.
pub open spec fn unsigned_part(t: Seq<char>) -> Seq<char> {
    if sign_of(t) != 0 { t.drop_first() } else { t }
}

/// A tab stop argument without its alignment letters at the end.
pub open spec fn trim_align(t: Seq<char>) -> Seq<char>
    decreases t.len(),
{
    if t.len() > 0 && (t.last() == 'R' || t.last() == 'L' || t.last() == 'C' || t.last() == 'T') {
        trim_align(t.drop_last())
    } else {
        t
    }
}

/// The tab stop specifications of `.ta`: relative where the argument
/// starts with `+`, each with its evaluated length.
pub open spec fn ta_specs(args: Seq<Seq<char>>, lengths: Seq<Option<i64>>) -> Seq<(bool, Option<usize>)> {
    Seq::new(args.len(), |k: int| (args[k].len() > 0 && args[k][0] == '+', len_cols(lengths, k)))
}

/// How an expression is turned into a count.
#[derive(Debug, Clone, Copy, PartialEq, Eq, Structural)]
pub enum Scale {
    /// Columns, rounded.
    Columns,
    /// Lines, rounded.
    Lines,
    /// Lines for `.sp`: a half line rounds down.
    SpaceLines,
    /// Basic units, cut toward zero.
    Units,
}

/// The expressions a request or macro evaluates, with how each becomes a
/// count; their values come back as `lengths`, in the same order.
pub open spec fn length_queries_spec(name: Seq<char>, tail: Seq<char>, args: Seq<Seq<char>>) -> Seq<(Seq<char>, Scale)> {
    if name == "sp"@ {
        if tail.len() > 0 { seq![(tail, Scale::SpaceLines)] } else { Seq::empty() }
    } else if name == "ll"@ || name == "in"@ {
        if tail.len() > 0 { seq![(unsigned_part(tail), Scale::Columns)] } else { Seq::empty() }
    } else if name == "ti"@ {
        seq![(tail, Scale::Columns)]
    } else if name == "nr"@ {
        if args.len() >= 2 { seq![(unsigned_part(args[1]), Scale::Units)] } else { Seq::empty() }
    } else if name == "ta"@ {
        ta_queries(args)
    } else if name == "PD"@ {
        if args.len() > 0 { seq![(args[0], Scale::Lines)] } else { Seq::empty() }
    } else if name == "IP"@ {
        if args.len() > 1 { seq![(args[1], Scale::Columns)] } else { Seq::empty() }
    } else if name == "TP"@ || name == "TQ"@ || name == "HP"@ || name == "RS"@ {
        if args.len() > 0 { seq![(args[0], Scale::Columns)] } else { Seq::empty() }
    } else {
        Seq::empty()
    }
}

/// The expressions of the tab stops of `.ta`.
pub open spec fn ta_queries(args: Seq<Seq<char>>) -> Seq<(Seq<char>, Scale)> {
    Seq::new(
        args.len(),
        |k: int|
            (trim_align(if args[k].len() > 0 && args[k][0] == '+' { args[k].drop_first() } else { args[k] }), Scale::Columns),
    )
}

/// The output before a request or macro changes the state.
pub open spec fn before_spec(s: RoffView, name: Seq<char>, tail: Seq<char>, lengths: Seq<Option<i64>>) -> Before {
    if name == "br"@ || name == "in"@ || name == "ti"@ || name == "fi"@ || name == "nf"@ || name == "ce"@
        || name == "TH"@ || name == "RS"@ || name == "RE"@ || name == "EX"@ || name == "EE"@ || name == "YS"@ {
        Before::Flush { adjust_both: false }
    } else if name == "TQ"@ {
        Before::Flush { adjust_both: true }
    } else if name == "sp"@ {
        Before::Space(
            if tail.len() == 0 {
                1
            } else {
                match len_at(lengths, 0) {
                    Some(v) => nonneg(v),
                    None => 1,
                }
            },
        )
    } else if name == "SH"@ || name == "SS"@ || name == "PP"@ || name == "P"@ || name == "LP"@ || name == "SY"@
        || name == "IP"@ {
        Before::ParaSpace { adjust_both: false }
    } else if name == "TP"@ {
        Before::ParaSpace { adjust_both: true }
    } else if name == "HP"@ {
        if s.page.no_space && s.page.after_heading { Before::DoubleBlank } else { Before::ParaSpace { adjust_both: false } }
    } else {
        Before::Nothing
    }
}


/// Where the first blank or tab of `t` stands, from `i` on.
pub open spec fn first_blank_from(t: Seq<char>, i: int) -> Option<int>
    decreases t.len() - i,
{
    if i < 0 || i >= t.len() {
        None
    } else if t[i] == ' ' || t[i] == '\t' {
        Some(i)
    } else {
        first_blank_from(t, i + 1)
    }
}

/// Where the first `\{` of `t` starts, from `i` on.
pub open spec fn brace_from(t: Seq<char>, i: int) -> Option<int>
    decreases t.len() - i,
{
    if i < 0 || i + 1 >= t.len() {
        None
    } else if t[i] == '\\' && t[i + 1] == '{' {
        Some(i)
    } else {
        brace_from(t, i + 1)
    }
}

/// A table without each of the names `ks`.
pub open spec fn remove_all<W>(t: Seq<(Seq<char>, W)>, ks: Seq<Seq<char>>) -> Seq<(Seq<char>, W)>
    decreases ks.len(),
{
    if ks.len() == 0 {
        t
    } else {
        remove_all(table_remove(t, ks[0]), ks.drop_first())
    }
}

/// `.ds` and `.as`: the string named by the first word of `tail` gets (or
/// has appended) the rest of the line, without one leading `"`; a name
/// alone gets the empty string.
pub open spec fn ds_spec(s: RoffView, append: bool, tail: Seq<char>) -> RoffView {
    match first_blank_from(tail, 0) {
        Some(p) => {
            let key = tail.take(p);
            let v0 = tail.skip(p + 1);
            let val = if v0.len() > 0 && v0[0] == '"' { v0.drop_first() } else { v0 };
            let newv = if append {
                match table_get(s.strings, key) {
                    Some(o) => o + val,
                    None => val,
                }
            } else {
                val
            };
            RoffView { strings: table_set(s.strings, key, newv), ..s }
        },
        None => if tail.len() > 0 {
            RoffView { strings: table_set(s.strings, tail, Seq::empty()), ..s }
        } else {
            s
        },
    }
}

/// The new value of a register: the evaluated length, or the old value
/// (0 where unset) moved by it where the argument is signed.
pub open spec fn nr_value(s: RoffView, key: Seq<char>, vs: Seq<char>, v: i64) -> int {
    let sg = sign_of(vs);
    let old: int = match table_get(s.registers, key) {
        Some(o) => o as int,
        None => 0,
    };
    if sg > 0 {
        old + v
    } else if sg < 0 {
        old - v
    } else {
        v as int
    }
}

/// `.nr name value [step]`.
pub open spec fn nr_spec(s: RoffView, args: Seq<Seq<char>>, lengths: Seq<Option<i64>>) -> RoffView {
    if args.len() >= 2 {
        let regs = match len_at(lengths, 0) {
            Some(v) => table_set(s.registers, args[0], nr_value(s, args[0], args[1], v) as i64),
            None => s.registers,
        };
        let steps = match parse_i64_spec(arg(args, 2)) {
            Some(st) => table_set(s.reg_steps, args[0], st),
            None => s.reg_steps,
        };
        RoffView { registers: regs, reg_steps: steps, ..s }
    } else {
        s
    }
}

/// `.rn` and `.als`: the macro (or else the string) `args[0]` is copied
/// to `args[1]`; `.rn` then removes the old name.
pub open spec fn rename_spec(s: RoffView, rename: bool, args: Seq<Seq<char>>) -> RoffView {
    if args.len() >= 2 {
        let s1 = match table_get(s.macros, args[0]) {
            Some(m) => RoffView { macros: table_set(s.macros, args[1], m), ..s },
            None => match table_get(s.strings, args[0]) {
                Some(t) => RoffView { strings: table_set(s.strings, args[1], t), ..s },
                None => s,
            },
        };
        if rename {
            RoffView {
                macros: table_remove(s1.macros, args[0]),
                strings: table_remove(s1.strings, args[0]),
                ..s1
            }
        } else {
            s1
        }
    } else {
        s
    }
}

/// The tab stops of `.ta` as a sequence of columns.
pub open spec fn stops_of(st: Seq<int>) -> Seq<usize> {
    Seq::new(st.len(), |i: int| st[i] as usize)
}

/// The requests that change the layout or the flags.
pub open spec fn layout_spec(s: RoffView, name: Seq<char>, tail: Seq<char>, args: Seq<Seq<char>>, lengths: Seq<Option<i64>>) -> RoffView {
    if name == "ll"@ {
        RoffView { ll: length_set(s.ll, tail, len_at(lengths, 0), 78), ..s }
    } else if name == "in"@ {
        if tail.len() == 0 {
            s
        } else {
            RoffView { ind: IndentsView { indent: length_set(s.ind.indent, tail, len_at(lengths, 0), 0), ..s.ind }, ..s }
        }
    } else if name == "ti"@ {
        match len_at(lengths, 0) {
            Some(v) => RoffView { ind: IndentsView { temp_indent: Some(nonneg(v)), ..s.ind }, ..s },
            None => s,
        }
    } else if name == "fi"@ {
        RoffView { fill: true, ..s }
    } else if name == "nf"@ {
        RoffView { fill: false, ..s }
    } else if name == "ad"@ {
        RoffView { adjust: adjust_spec(opt_arg(args, 0)), ..s }
    } else if name == "na"@ {
        RoffView { adjust: Adjust::Left, ..s }
    } else if name == "ce"@ {
        RoffView { ce_count: match parse_usize_spec(arg(args, 0)) { Some(n) => n, None => 1 }, ..s }
    } else if name == "ul"@ || name == "cu"@ {
        RoffView { ul_count: match parse_usize_spec(arg(args, 0)) { Some(n) => n, None => 1 }, ..s }
    } else if name == "ft"@ {
        let f = match opt_arg(args, 0) { Some(a) => a, None => "P"@ };
        let newf = if f == "P"@ { s.prev_font } else { font_of(f) };
        RoffView { prev_font: s.font, font: newf, ..s }
    } else if name == "ta"@ {
        match ta_spec(ta_specs(args, lengths)) {
            Some(st) => RoffView { tab_stops: stops_of(st), ..s },
            None => s,
        }
    } else if name == "ls"@ {
        let n = match parse_usize_spec(arg(args, 0)) { Some(n) => n, None => 1 };
        RoffView { page: PageOutputView { line_spacing: if n >= 1 { n } else { 1 }, ..s.page }, ..s }
    } else if name == "di"@ || name == "da"@ {
        if args.len() > 0 { RoffView { diverting: true, ..s } } else { s }
    } else if name == "hy"@ {
        RoffView { hy: match parse_i64_spec(arg(args, 0)) { Some(n) => n != 0, None => true }, ..s }
    } else if name == "nh"@ {
        RoffView { hy: false, ..s }
    } else if name == "ss"@ {
        match parse_i64_spec(arg(args, 1)) {
            Some(m) => RoffView { sentence_gap_extra: if m <= 0 { 0 } else { 1 }, ..s },
            None => s,
        }
    } else if name == "ns"@ {
        RoffView { page: PageOutputView { no_space: true, ..s.page }, ..s }
    } else if name == "rs"@ {
        RoffView { page: PageOutputView { no_space: false, ..s.page }, ..s }
    } else if name == "ex"@ {
        RoffView { exited: true, ..s }
    } else {
        s
    }
}

/// Whether a request is one of the layout requests.
pub open spec fn is_layout(name: Seq<char>) -> bool {
    name == "ll"@ || name == "in"@ || name == "ti"@ || name == "fi"@ || name == "nf"@ || name == "ad"@ || name == "na"@
        || name == "ce"@ || name == "ul"@ || name == "cu"@ || name == "ft"@ || name == "ta"@ || name == "ls"@
        || name == "di"@ || name == "da"@ || name == "hy"@ || name == "nh"@ || name == "ss"@ || name == "ns"@
        || name == "rs"@ || name == "ex"@
}

/// The requests on strings, macros and registers.
pub open spec fn table_spec(s: RoffView, name: Seq<char>, tail: Seq<char>, args: Seq<Seq<char>>, lengths: Seq<Option<i64>>) -> RoffView {
    if name == "ds"@ || name == "as"@ {
        ds_spec(s, name == "as"@, tail)
    } else if name == "nr"@ {
        nr_spec(s, args, lengths)
    } else if name == "rr"@ {
        RoffView { registers: remove_all(s.registers, args), ..s }
    } else if name == "rm"@ {
        RoffView { macros: remove_all(s.macros, args), strings: remove_all(s.strings, args), ..s }
    } else if name == "rn"@ || name == "als"@ {
        rename_spec(s, name == "rn"@, args)
    } else {
        s
    }
}

/// Whether a request works on the tables.
pub open spec fn is_table(name: Seq<char>) -> bool {
    name == "ds"@ || name == "as"@ || name == "nr"@ || name == "rr"@ || name == "rm"@ || name == "rn"@ || name == "als"@
}

/// The requests that hand work to the input side: definitions, blocks,
/// conditions, files, messages.
pub open spec fn control_spec(
    s: RoffView,
    name: Seq<char>,
    tail: Seq<char>,
    args: Seq<Seq<char>>,
    condition: Option<(bool, Seq<char>)>,
) -> (RoffView, Seq<EffectView>) {
    if name == "de"@ || name == "de1"@ || name == "am"@ || name == "am1"@ {
        let end = match opt_arg(args, 1) { Some(e) => e, None => ".."@ };
        (s, seq![EffectView::ReadDefinition {
            name: arg(args, 0),
            end: seq!['.'] + end,
            append: name == "am"@ || name == "am1"@,
        }])
    } else if name == "ig"@ {
        let end = arg(args, 0);
        (s, seq![EffectView::SkipBlock { end: if end.len() == 0 { ".."@ } else { seq!['.'] + end } }])
    } else if name == "if"@ || name == "ie"@ {
        match condition {
            Some((c, body)) => {
                let s1 = if name == "ie"@ { RoffView { el_stack: s.el_stack.push(!c), ..s } } else { s };
                (s1, seq![EffectView::RunBody { run: c, body }])
            },
            None => (s, Seq::empty()),
        }
    } else if name == "el"@ {
        if s.el_stack.len() > 0 {
            (RoffView { el_stack: s.el_stack.drop_last(), ..s }, seq![EffectView::RunBody { run: s.el_stack.last(), body: tail }])
        } else {
            (s, seq![EffectView::RunBody { run: false, body: tail }])
        }
    } else if name == "while"@ {
        match brace_from(tail, 0) {
            Some(p) => (s, seq![EffectView::SkipLoop { rest: tail.skip(p + 2) }]),
            None => (s, Seq::empty()),
        }
    } else if name == "so"@ {
        if tail.len() > 0 { (s, seq![EffectView::Source { path: tail }]) } else { (s, Seq::empty()) }
    } else if name == "shift"@ {
        (s, seq![EffectView::Shift { count: match parse_usize_spec(arg(args, 0)) { Some(n) => n, None => 1 } }])
    } else if name == "return"@ {
        (s, seq![EffectView::Return])
    } else if name == "nop"@ {
        (s, seq![EffectView::RunLine { line: tail }])
    } else if name == "do"@ {
        (s, seq![EffectView::RunRequest { line: seq!['.'] + tail }])
    } else if name == "ab"@ {
        (RoffView { exited: true, ..s }, if tail.len() > 0 { seq![EffectView::Message { text: tail }] } else { Seq::empty() })
    } else if name == "tm"@ {
        (s, seq![EffectView::Message { text: tail }])
    } else {
        (s, Seq::empty())
    }
}

/// What a request does: its change of the state and its effects (after
/// the output of `before_spec`). The condition of `.if` and `.ie`, with
/// the text after it, is evaluated by the caller; unknown requests do
/// nothing.
pub open spec fn request_spec(
    s: RoffView,
    name: Seq<char>,
    tail: Seq<char>,
    args: Seq<Seq<char>>,
    lengths: Seq<Option<i64>>,
    condition: Option<(bool, Seq<char>)>,
) -> (RoffView, Seq<EffectView>) {
    if is_layout(name) {
        (layout_spec(s, name, tail, args, lengths), Seq::empty())
    } else if is_table(name) {
        (table_spec(s, name, tail, args, lengths), Seq::empty())
    } else {
        control_spec(s, name, tail, args, condition)
    }
}

/// Whether a request can be carried out: a register's new value fits in
/// `i64`, and the tab stops fit (see `ta_fits`).
pub open spec fn request_ok_spec(s: RoffView, name: Seq<char>, args: Seq<Seq<char>>, lengths: Seq<Option<i64>>) -> bool {
    &&& name == "nr"@ && args.len() >= 2 ==> match len_at(lengths, 0) {
        Some(v) => i64::MIN <= nr_value(s, args[0], args[1], v) <= i64::MAX,
        None => true,
    }
    &&& name == "ta"@ ==> ta_fits(ta_specs(args, lengths))
}


/// The `k`-th argument, or the empty text.
fn arg_at(args: &[String], k: usize) -> (r: &str)
    ensures
        r@ == arg(strings_view(args@), k as int),
{
    if k < args.len() {
        args[k].as_str()
    } else {
        proof {
            reveal_strlit("");
        }
        ""
    }
}

/// The `k`-th argument where there is one.
fn opt_arg_at(args: &[String], k: usize) -> (r: Option<&str>)
    ensures
        match r {
            Some(x) => opt_arg(strings_view(args@), k as int) == Some(x@),
            None => opt_arg(strings_view(args@), k as int) is None,
        },
{
    if k < args.len() {
        Some(args[k].as_str())
    } else {
        None
    }
}

/// The `k`-th evaluated length where there is one.
fn len_of(lengths: &[Option<i64>], k: usize) -> (r: Option<i64>)
    ensures
        r == len_at(lengths@, k as int),
{
    if k < lengths.len() {
        lengths[k]
    } else {
        None
    }
}

/// A length as a count: none below zero.
fn nonneg_of(v: i64) -> (r: usize)
    ensures
        r == nonneg(v),
{
    if v <= 0 {
        0
    } else if v as i128 > usize::MAX as i128 {
        usize::MAX
    } else {
        v as usize
    }
}

/// `str::parse::<usize>`.
fn parse_usize_str(t: &str) -> (r: Option<usize>)
    ensures
        r == parse_usize_spec(t@),
{
    let v = chars_of(t);
    match parse_usize(&v) {
        Some(n) => Some(n),
        None => None,
    }
}

/// `str::parse::<i64>`.
fn parse_i64_str(t: &str) -> (r: Option<i64>)
    ensures
        r == parse_i64_spec(t@),
{
    let v = chars_of(t);
    match parse_i64(&v) {
        Some(n) => Some(n),
        None => None,
    }
}

/// The sign of a relative length.
fn sign_of_str(t: &str) -> (r: i8)
    ensures
        r as int == sign_of(t@),
{
    let v = chars_of(t);
    if v.len() > 0 && v[0] == '+' {
        1
    } else if v.len() > 0 && v[0] == '-' {
        -1
    } else {
        0
    }
}

/// A length register after `tail`.
fn length_set_of(cur: usize, tail: &str, len: Option<i64>, default: usize) -> (r: usize)
    ensures
        r == length_set(cur, tail@, len, default),
{
    if tail.unicode_len() == 0 {
        return default;
    }
    match len {
        Some(v) => {
            let sg = sign_of_str(tail);
            let n: i128 = if sg > 0 {
                cur as i128 + v as i128
            } else if sg < 0 {
                cur as i128 - v as i128
            } else {
                v as i128
            };
            if n <= 0 {
                0
            } else if n > usize::MAX as i128 {
                usize::MAX
            } else {
                n as usize
            }
        },
        None => cur,
    }
}

/// Where the first blank or tab of `t` stands.
fn first_blank(t: &[char]) -> (r: Option<usize>)
    ensures
        match r {
            Some(p) => first_blank_from(t@, 0) == Some(p as int) && p < t@.len(),
            None => first_blank_from(t@, 0) is None,
        },
{
    let mut i: usize = 0;
    while i < t.len()
        invariant
            i <= t@.len(),
            first_blank_from(t@, i as int) == first_blank_from(t@, 0),
        decreases t.len() - i,
    {
        if t[i] == ' ' || t[i] == '\t' {
            return Some(i);
        }
        i += 1;
    }
    None
}

/// Where the first `\{` of `t` starts.
fn first_brace(t: &[char]) -> (r: Option<usize>)
    ensures
        match r {
            Some(p) => brace_from(t@, 0) == Some(p as int) && p + 2 <= t@.len(),
            None => brace_from(t@, 0) is None,
        },
{
    let mut i: usize = 0;
    while i < t.len() && i + 1 < t.len()
        invariant
            i <= t@.len(),
            brace_from(t@, i as int) == brace_from(t@, 0),
        decreases t.len() - i,
    {
        if t[i] == '\\' && t[i + 1] == '{' {
            return Some(i);
        }
        i += 1;
    }
    None
}

/// Removes each of the names `ks` from a table.
fn table_delete_all<V: View>(t: &mut Vec<(String, V)>, ks: &[String])
    ensures
        table_view(final(t)@) == remove_all(table_view(old(t)@), strings_view(ks@)),
{
    let ghost kv = strings_view(ks@);
    let mut i: usize = 0;
    proof {
        assert(kv.skip(0) =~= kv);
    }
    while i < ks.len()
        invariant
            i <= ks@.len(),
            kv == strings_view(ks@),
            remove_all(table_view(t@), kv.skip(i as int)) == remove_all(table_view(old(t)@), kv),
        decreases ks.len() - i,
    {
        proof {
            assert(kv.skip(i as int).drop_first() =~= kv.skip(i + 1));
            assert(kv.skip(i as int)[0] == ks@[i as int]@);
        }
        table_delete(t, ks[i].as_str());
        i += 1;
    }
    proof {
        assert(kv.skip(ks@.len() as int) =~= Seq::<Seq<char>>::empty());
    }
}

/// The tab stop specifications of `.ta`.
pub fn tab_specs(args: &[String], lengths: &[Option<i64>]) -> (r: Vec<(bool, Option<usize>)>)
    ensures
        r@ == ta_specs(strings_view(args@), lengths@),
{
    let mut r: Vec<(bool, Option<usize>)> = Vec::new();
    let mut k: usize = 0;
    while k < args.len()
        invariant
            k <= args@.len(),
            r@ == ta_specs(strings_view(args@), lengths@).take(k as int),
        decreases args.len() - k,
    {
        let v = chars_of(args[k].as_str());
        let rel = v.len() > 0 && v[0] == '+';
        let len = match len_of(lengths, k) {
            Some(x) => Some(nonneg_of(x)),
            None => None,
        };
        r.push((rel, len));
        proof {
            assert(r@ =~= ta_specs(strings_view(args@), lengths@).take(k + 1));
        }
        k += 1;
    }
    proof {
        assert(r@ =~= ta_specs(strings_view(args@), lengths@));
    }
    r
}


proof fn lemma_remove_all_unique<W>(t: Seq<(Seq<char>, W)>, ks: Seq<Seq<char>>)
    requires
        keys_unique(t),
    ensures
        keys_unique(remove_all(t, ks)),
    decreases ks.len(),
{
    if ks.len() > 0 {
        lemma_remove_unique(t, ks[0]);
        lemma_remove_all_unique(table_remove(t, ks[0]), ks.drop_first());
    }
}

/// The name of a device as the string `.T` gives it.
pub open spec fn device_name(d: crate::groff::special::Device) -> Seq<char> {
    match d {
        crate::groff::special::Device::Ascii => "ascii"@,
        crate::groff::special::Device::Latin1 => "latin1"@,
        crate::groff::special::Device::Utf8 => "utf8"@,
        crate::groff::special::Device::Html => "html"@,
    }
}

/// Sets each pair of `kvs` in a table, in order.
pub open spec fn set_all<W>(t: Seq<(Seq<char>, W)>, kvs: Seq<(Seq<char>, W)>) -> Seq<(Seq<char>, W)>
    decreases kvs.len(),
{
    if kvs.len() == 0 {
        t
    } else {
        set_all(table_set(t, kvs[0].0, kvs[0].1), kvs.drop_first())
    }
}

/// The registers given on the command line that were evaluated.
pub open spec fn given_registers(regs: Seq<(Seq<char>, Option<i64>)>) -> Seq<(Seq<char>, i64)>
    decreases regs.len(),
{
    if regs.len() == 0 {
        Seq::empty()
    } else {
        let rest = given_registers(regs.drop_first());
        match regs[0].1 {
            Some(v) => seq![(regs[0].0, v)] + rest,
            None => rest,
        }
    }
}

/// The line length a value of the `LL` register (in basic units) gives:
/// its columns, rounded, where there is at least one.
pub open spec fn ll_from_units(cur: usize, v: i64) -> usize {
    let c: int = if v > 0 { (v + 12) / 24 } else { 0 };
    if c > 0 { c as usize } else { cur }
}

/// The line length after the registers given on the command line: each
/// `LL` among them sets it in turn.
pub open spec fn ll_after(cur: usize, regs: Seq<(Seq<char>, i64)>) -> usize
    decreases regs.len(),
{
    if regs.len() == 0 {
        cur
    } else {
        ll_after(if regs[0].0 == "LL"@ { ll_from_units(cur, regs[0].1) } else { cur }, regs.drop_first())
    }
}

/// The state at the start: the predefined strings (with `.T` the device)
/// and then those given; the date registers, `%`, `.g` and `HY`, then
/// those given; 78 columns unless `LL` sets them; filling with both
/// margins adjusted, roman type, tab stops every 5 columns.
pub open spec fn roff_start_spec(
    device: crate::groff::special::Device,
    year: i64,
    month: i64,
    day: i64,
    strings: Seq<(Seq<char>, Seq<char>)>,
    registers: Seq<(Seq<char>, Option<i64>)>,
) -> RoffView {
    let base_strings = seq![
        ("R"@, "\\(rg"@),
        ("Tm"@, "\\(tm"@),
        ("lq"@, "\\(lq"@),
        ("rq"@, "\\(rq"@),
        ("S"@, Seq::<char>::empty()),
        (".T"@, device_name(device)),
    ];
    let base_regs = seq![("yr"@, (year - 1900) as i64), ("mo"@, month), ("dy"@, day), ("%"@, 1i64), (".g"@, 1i64), ("HY"@, 1i64)];
    let given = given_registers(registers);
    RoffView {
        ll: ll_after(78, given),
        ind: IndentsView {
            base_indent: BODY_INDENT,
            prevail_indent: BODY_INDENT,
            rs_stack: Seq::empty(),
            indent: 0,
            temp_indent: None,
        },
        fill: true,
        adjust: Adjust::Both,
        ce_count: 0,
        ul_count: 0,
        font: 'R',
        prev_font: 'R',
        sentence_gap_extra: 1,
        hy: true,
        tab_stops: Seq::new(40, |i: int| ((i + 1) * 5) as usize),
        pd: 1,
        page: PageOutputView { lines: Seq::empty(), no_space: false, after_heading: false, line_spacing: 1 },
        strings: set_all(set_all(Seq::empty(), base_strings), strings),
        macros: Seq::empty(),
        registers: set_all(set_all(Seq::empty(), base_regs), given),
        reg_steps: Seq::empty(),
        th: None,
        tag_pending: None,
        next_line_font: None,
        pending_heading: None,
        link_url: None,
        el_stack: Seq::empty(),
        diverting: false,
        exited: false,
    }
}

proof fn lemma_set_all_unique<W>(t: Seq<(Seq<char>, W)>, kvs: Seq<(Seq<char>, W)>)
    requires
        keys_unique(t),
    ensures
        keys_unique(set_all(t, kvs)),
    decreases kvs.len(),
{
    if kvs.len() > 0 {
        lemma_set_unique(t, kvs[0].0, kvs[0].1);
        lemma_set_all_unique(table_set(t, kvs[0].0, kvs[0].1), kvs.drop_first());
    }
}

/// The pairs of names and texts as values.
pub open spec fn pairs_view(v: Seq<(String, String)>) -> Seq<(Seq<char>, Seq<char>)> {
    v.map_values(|e: (String, String)| (e.0@, e.1@))
}

/// The names and evaluated values as values.
pub open spec fn regs_view(v: Seq<(String, Option<i64>)>) -> Seq<(Seq<char>, Option<i64>)> {
    v.map_values(|e: (String, Option<i64>)| (e.0@, e.1))
}

/// Sets each pair in a table of texts.
fn insert_strings(t: &mut Vec<(String, String)>, kvs: &[(String, String)])
    ensures
        table_view(final(t)@) == set_all(table_view(old(t)@), pairs_view(kvs@)),
{
    let ghost kv = pairs_view(kvs@);
    let mut i: usize = 0;
    proof {
        assert(kv.skip(0) =~= kv);
    }
    while i < kvs.len()
        invariant
            i <= kvs@.len(),
            kv == pairs_view(kvs@),
            set_all(table_view(t@), kv.skip(i as int)) == set_all(table_view(old(t)@), kv),
        decreases kvs.len() - i,
    {
        proof {
            assert(kv.skip(i as int).drop_first() =~= kv.skip(i + 1));
        }
        table_insert(t, kvs[i].0.clone(), kvs[i].1.clone());
        i += 1;
    }
    proof {
        assert(kv.skip(kvs@.len() as int) =~= Seq::<(Seq<char>, Seq<char>)>::empty());
    }
}

impl Roff {
    /// The state at the start, for a device, today's date, and the strings
    /// and registers (evaluated in basic units) given on the command line.
    pub fn new(
        device: crate::groff::special::Device,
        year: i64,
        month: i64,
        day: i64,
        strings: &[(String, String)],
        registers: &[(String, Option<i64>)],
    ) -> (r: Roff)
        requires
            year >= i64::MIN + 1900,
        ensures
            r@ == roff_start_spec(device, year, month, day, pairs_view(strings@), regs_view(registers@)),
            r.wf(),
    {
        let mut st: Vec<(String, String)> = Vec::new();
        let dev = match device {
            crate::groff::special::Device::Ascii => "ascii",
            crate::groff::special::Device::Latin1 => "latin1",
            crate::groff::special::Device::Utf8 => "utf8",
            crate::groff::special::Device::Html => "html",
        };
        let base: Vec<(String, String)> = vec![
            (String::from_str("R"), String::from_str("\\(rg")),
            (String::from_str("Tm"), String::from_str("\\(tm")),
            (String::from_str("lq"), String::from_str("\\(lq")),
            (String::from_str("rq"), String::from_str("\\(rq")),
            (String::from_str("S"), String::new()),
            (String::from_str(".T"), String::from_str(dev)),
        ];
        proof {
            reveal_strlit("");
            assert(pairs_view(base@) =~= seq![
                ("R"@, "\\(rg"@),
                ("Tm"@, "\\(tm"@),
                ("lq"@, "\\(lq"@),
                ("rq"@, "\\(rq"@),
                ("S"@, Seq::<char>::empty()),
                (".T"@, device_name(device)),
            ]);
            assert(table_view(st@) =~= Seq::<(Seq<char>, Seq<char>)>::empty());
        }
        insert_strings(&mut st, &base);
        insert_strings(&mut st, strings);
        let mut regs: Vec<(String, i64)> = Vec::new();
        proof {
            assert(table_view(regs@) =~= Seq::<(Seq<char>, i64)>::empty());
        }
        let base_regs: Vec<(String, i64)> = vec![
            (String::from_str("yr"), year - 1900),
            (String::from_str("mo"), month),
            (String::from_str("dy"), day),
            (String::from_str("%"), 1),
            (String::from_str(".g"), 1),
            (String::from_str("HY"), 1),
        ];
        let ghost brv = base_regs@.map_values(|e: (String, i64)| (e.0@, e.1));
        proof {
            assert(brv =~= seq![("yr"@, (year - 1900) as i64), ("mo"@, month), ("dy"@, day), ("%"@, 1i64), (".g"@, 1i64), ("HY"@, 1i64)]);
        }
        let mut k: usize = 0;
        proof {
            assert(brv.skip(0) =~= brv);
        }
        while k < base_regs.len()
            invariant
                k <= base_regs@.len(),
                brv == base_regs@.map_values(|e: (String, i64)| (e.0@, e.1)),
                set_all(table_view(regs@), brv.skip(k as int)) == set_all(Seq::<(Seq<char>, i64)>::empty(), brv),
            decreases base_regs.len() - k,
        {
            proof {
                assert(brv.skip(k as int).drop_first() =~= brv.skip(k + 1));
            }
            table_insert(&mut regs, base_regs[k].0.clone(), base_regs[k].1);
            k += 1;
        }
        proof {
            assert(brv.skip(k as int) =~= Seq::<(Seq<char>, i64)>::empty());
        }
        let ghost rv = regs_view(registers@);
        let mut ll: usize = 78;
        let mut j: usize = 0;
        proof {
            assert(rv.skip(0) =~= rv);
        }
        while j < registers.len()
            invariant
                j <= registers@.len(),
                rv == regs_view(registers@),
                set_all(table_view(regs@), given_registers(rv.skip(j as int))) == set_all(
                    set_all(Seq::<(Seq<char>, i64)>::empty(), brv),
                    given_registers(rv),
                ),
                ll_after(ll, given_registers(rv.skip(j as int))) == ll_after(78, given_registers(rv)),
            decreases registers.len() - j,
        {
            proof {
                assert(rv.skip(j as int).drop_first() =~= rv.skip(j + 1));
            }
            match registers[j].1 {
                Some(v) => {
                    proof {
                        assert(given_registers(rv.skip(j as int)) == seq![(registers@[j as int].0@, v)] + given_registers(
                            rv.skip(j + 1),
                        ));
                        assert((seq![(registers@[j as int].0@, v)] + given_registers(rv.skip(j + 1))).drop_first()
                            =~= given_registers(rv.skip(j + 1)));
                    }
                    if str_eq(registers[j].0.as_str(), "LL") && v > 0 {
                        let c: i64 = v / 24 + if v % 24 >= 12 { 1 } else { 0 };
                        proof {
                            assert(c == (v + 12) / 24) by (nonlinear_arith)
                                requires
                                    v > 0,
                                    c == v / 24 + if v % 24 >= 12 { 1int } else { 0int },
                            ;
                        }
                        if c > 0 {
                            ll = c as usize;
                        }
                    }
                    table_insert(&mut regs, registers[j].0.clone(), v);
                },
                None => {},
            }
            j += 1;
        }
        proof {
            assert(rv.skip(registers@.len() as int) =~= Seq::<(Seq<char>, Option<i64>)>::empty());
            lemma_set_all_unique(Seq::<(Seq<char>, Seq<char>)>::empty(), pairs_view(base@));
            lemma_set_all_unique(set_all(Seq::<(Seq<char>, Seq<char>)>::empty(), pairs_view(base@)), pairs_view(strings@));
            lemma_set_all_unique(Seq::<(Seq<char>, i64)>::empty(), brv);
            lemma_set_all_unique(set_all(Seq::<(Seq<char>, i64)>::empty(), brv), given_registers(rv));
        }
        let mut stops: Vec<usize> = Vec::new();
        let mut q: usize = 0;
        while q < 40
            invariant
                q <= 40,
                stops@ == Seq::new(q as nat, |i: int| ((i + 1) * 5) as usize),
            decreases 40 - q,
        {
            stops.push((q + 1) * 5);
            q += 1;
            proof {
                assert(stops@ =~= Seq::new(q as nat, |i: int| ((i + 1) * 5) as usize));
            }
        }
        let macros: Vec<(String, Vec<String>)> = Vec::new();
        let steps: Vec<(String, i64)> = Vec::new();
        let r = Roff {
            ll,
            ind: Indents::new(),
            fill: true,
            adjust: Adjust::Both,
            ce_count: 0,
            ul_count: 0,
            font: 'R',
            prev_font: 'R',
            sentence_gap_extra: 1,
            hy: true,
            tab_stops: stops,
            pd: 1,
            page: PageOutput::new(),
            strings: st,
            macros,
            registers: regs,
            reg_steps: steps,
            th: None,
            tag_pending: None,
            next_line_font: None,
            pending_heading: None,
            link_url: None,
            el_stack: Vec::new(),
            diverting: false,
            exited: false,
        };
        proof {
            assert(table_view(r.macros@) =~= Seq::<(Seq<char>, Seq<String>)>::empty());
            assert(table_view(r.reg_steps@) =~= Seq::<(Seq<char>, i64)>::empty());
            assert(r.el_stack@ =~= Seq::<bool>::empty());
            assert(r@ =~= roff_start_spec(device, year, month, day, pairs_view(strings@), regs_view(registers@)));
        }
        r
    }
}


/// The condition of `.if`/`.ie` as values.
pub open spec fn cond_view(c: Option<(bool, String)>) -> Option<(bool, Seq<char>)> {
    match c {
        Some((b, t)) => Some((b, t@)),
        None => None,
    }
}

/// Whether a request is one of the layout requests.
fn is_layout_name(name: &str) -> (r: bool)
    ensures
        r == is_layout(name@),
{
    str_eq(name, "ll") || str_eq(name, "in") || str_eq(name, "ti") || str_eq(name, "fi") || str_eq(name, "nf")
        || str_eq(name, "ad") || str_eq(name, "na") || str_eq(name, "ce") || str_eq(name, "ul") || str_eq(name, "cu")
        || str_eq(name, "ft") || str_eq(name, "ta") || str_eq(name, "ls") || str_eq(name, "di") || str_eq(name, "da")
        || str_eq(name, "hy") || str_eq(name, "nh") || str_eq(name, "ss") || str_eq(name, "ns") || str_eq(name, "rs")
        || str_eq(name, "ex")
}

/// Whether a request works on the tables.
fn is_table_name(name: &str) -> (r: bool)
    ensures
        r == is_table(name@),
{
    str_eq(name, "ds") || str_eq(name, "as") || str_eq(name, "nr") || str_eq(name, "rr") || str_eq(name, "rm")
        || str_eq(name, "rn") || str_eq(name, "als")
}

impl Roff {
    #[verifier::rlimit(80)]
    fn layout_request(&mut self, name: &str, tail: &str, args: &[String], lengths: &[Option<i64>])
        requires
            name@ == "ta"@ ==> ta_fits(ta_specs(strings_view(args@), lengths@)),
        ensures
            final(self)@ == layout_spec(old(self)@, name@, tail@, strings_view(args@), lengths@),
    {
        let ghost s0 = self@;
        let ghost av = strings_view(args@);
        if str_eq(name, "ll") {
            self.ll = length_set_of(self.ll, tail, len_of(lengths, 0), 78);
        } else if str_eq(name, "in") {
            if tail.unicode_len() != 0 {
                self.ind.indent = length_set_of(self.ind.indent, tail, len_of(lengths, 0), 0);
            }
        } else if str_eq(name, "ti") {
            match len_of(lengths, 0) {
                Some(v) => {
                    self.ind.temp_indent = Some(nonneg_of(v));
                },
                None => {},
            }
        } else if str_eq(name, "fi") {
            self.fill = true;
        } else if str_eq(name, "nf") {
            self.fill = false;
        } else if str_eq(name, "ad") {
            self.adjust = adjust_of(opt_arg_at(args, 0));
        } else if str_eq(name, "na") {
            self.adjust = Adjust::Left;
        } else if str_eq(name, "ce") {
            self.ce_count = match parse_usize_str(arg_at(args, 0)) {
                Some(n) => n,
                None => 1,
            };
        } else if str_eq(name, "ul") || str_eq(name, "cu") {
            self.ul_count = match parse_usize_str(arg_at(args, 0)) {
                Some(n) => n,
                None => 1,
            };
        } else if str_eq(name, "ft") {
            let f = match opt_arg_at(args, 0) {
                Some(a) => a,
                None => "P",
            };
            let newf = if str_eq(f, "P") {
                self.prev_font
            } else {
                crate::groff::render::map_font_name(f)
            };
            self.prev_font = self.font;
            self.font = newf;
        } else if str_eq(name, "ta") {
            let specs = tab_specs(args, lengths);
            match tab_stops_of(&specs) {
                Some(st) => {
                    proof {
                        let sp = ta_spec(ta_specs(av, lengths@))->Some_0;
                        assert(st@ =~= stops_of(sp)) by {
                            assert forall|q: int| 0 <= q < st@.len() implies st@[q] == stops_of(sp)[q] by {
                                assert(st@.map_values(|x: usize| x as int)[q] == sp[q]);
                            }
                        }
                    }
                    self.tab_stops = st;
                },
                None => {},
            }
        } else if str_eq(name, "ls") {
            let n = match parse_usize_str(arg_at(args, 0)) {
                Some(n) => n,
                None => 1,
            };
            self.page.line_spacing = if n >= 1 {
                n
            } else {
                1
            };
        } else if str_eq(name, "di") || str_eq(name, "da") {
            if args.len() > 0 {
                self.diverting = true;
            }
        } else if str_eq(name, "hy") {
            self.hy = match parse_i64_str(arg_at(args, 0)) {
                Some(n) => n != 0,
                None => true,
            };
        } else if str_eq(name, "nh") {
            self.hy = false;
        } else if str_eq(name, "ss") {
            match parse_i64_str(arg_at(args, 1)) {
                Some(m) => {
                    self.sentence_gap_extra = if m <= 0 {
                        0
                    } else {
                        1
                    };
                },
                None => {},
            }
        } else if str_eq(name, "ns") {
            self.page.no_space = true;
        } else if str_eq(name, "rs") {
            self.page.no_space = false;
        } else if str_eq(name, "ex") {
            self.exited = true;
        }
        proof {
            reveal_strlit("P");
            assert(self@ =~= layout_spec(s0, name@, tail@, av, lengths@));
        }
    }

    #[verifier::rlimit(60)]
    fn table_request(&mut self, name: &str, tail: &str, args: &[String], lengths: &[Option<i64>])
        requires
            roff_wf(old(self)@),
            request_ok_spec(old(self)@, name@, strings_view(args@), lengths@),
        ensures
            final(self)@ == table_spec(old(self)@, name@, tail@, strings_view(args@), lengths@),
            roff_wf(final(self)@),
    {
        let ghost s0 = self@;
        let ghost av = strings_view(args@);
        if str_eq(name, "ds") || str_eq(name, "as") {
            let append = str_eq(name, "as");
            self.define_string(append, tail);
        } else if str_eq(name, "nr") {
            if args.len() >= 2 {
                proof {
                    assert(av[0] == args@[0]@ && av[1] == args@[1]@);
                }
                proof {
                    lemma_key_index_from(table_view(self.registers@), av[0], 0);
                }
                match len_of(lengths, 0) {
                    Some(v) => {
                        let ghost tv = table_view(self.registers@);
                        let old: i64 = match find_key(&self.registers, args[0].as_str()) {
                            Some(k) => {
                                proof {
                                    assert(tv[k as int] == (self.registers@[k as int].0@, self.registers@[k as int].1@));
                                    assert(table_get(tv, av[0]) == Some(tv[k as int].1));
                                }
                                self.registers[k].1
                            },
                            None => 0,
                        };
                        proof {
                            assert(old as int == match table_get(tv, av[0]) {
                                Some(o) => o as int,
                                None => 0,
                            });
                        }
                        let sg = sign_of_str(args[1].as_str());
                        let new: i128 = if sg > 0 {
                            old as i128 + v as i128
                        } else if sg < 0 {
                            old as i128 - v as i128
                        } else {
                            v as i128
                        };
                        proof {
                            lemma_key_index_from(table_view(self.registers@), av[0], 0);
                            assert(new == nr_value(s0, av[0], av[1], v));
                        }
                        table_insert(&mut self.registers, args[0].clone(), new as i64);
                        proof {
                            lemma_set_unique(s0.registers, av[0], new as i64);
                        }
                    },
                    None => {},
                }
                match parse_i64_str(arg_at(args, 2)) {
                    Some(st) => {
                        table_insert(&mut self.reg_steps, args[0].clone(), st);
                        proof {
                            lemma_set_unique(s0.reg_steps, av[0], st);
                        }
                    },
                    None => {},
                }
            }
        } else if str_eq(name, "rr") {
            table_delete_all(&mut self.registers, args);
            proof {
                lemma_remove_all_unique(s0.registers, av);
            }
        } else if str_eq(name, "rm") {
            table_delete_all(&mut self.macros, args);
            table_delete_all(&mut self.strings, args);
            proof {
                lemma_remove_all_unique(s0.macros, av);
                lemma_remove_all_unique(s0.strings, av);
            }
        } else if str_eq(name, "rn") || str_eq(name, "als") {
            let rename = str_eq(name, "rn");
            self.rename(rename, args);
        }
        proof {
            assert(self@ =~= table_spec(s0, name@, tail@, av, lengths@));
        }
    }

    fn define_string(&mut self, append: bool, tail: &str)
        requires
            roff_wf(old(self)@),
        ensures
            final(self)@ == ds_spec(old(self)@, append, tail@),
            roff_wf(final(self)@),
    {
        let ghost s0 = self@;
        let t = chars_of(tail);
        match first_blank(&t) {
            Some(p) => {
                let key = string_of(&crate::text::slice_chars(&t, 0, p));
                assert(p < t.len());
                let mut v0 = crate::text::slice_chars(&t, p + 1, t.len());
                let val = if v0.len() > 0 && v0[0] == '"' {
                    string_of(&crate::text::slice_chars(&v0, 1, v0.len()))
                } else {
                    string_of(&v0)
                };
                proof {
                    assert(key@ =~= tail@.take(p as int));
                    assert(v0@ =~= tail@.skip(p + 1));
                    if v0@.len() > 0 && v0@[0] == '"' {
                        assert(val@ =~= v0@.drop_first());
                    }
                }
                proof {
                    lemma_key_index_from(s0.strings, key@, 0);
                }
                let newv = if append {
                    match find_key(&self.strings, key.as_str()) {
                        Some(k) => {
                            let mut o = self.strings[k].1.clone();
                            o.append(val.as_str());
                            o
                        },
                        None => val,
                    }
                } else {
                    val
                };
                proof {
                    lemma_key_index_from(s0.strings, key@, 0);
                }
                let ghost nv = newv@;
                let ghost kv = key@;
                table_insert(&mut self.strings, key, newv);
                proof {
                    lemma_set_unique(s0.strings, kv, nv);
                    assert(self@ =~= ds_spec(s0, append, tail@));
                }
            },
            None => {
                if t.len() > 0 {
                    let key = String::from_str(tail);
                    table_insert(&mut self.strings, key, String::new());
                    proof {
                        lemma_set_unique(s0.strings, tail@, Seq::<char>::empty());
                        assert(self@ =~= ds_spec(s0, append, tail@));
                    }
                }
            },
        }
    }

    fn rename(&mut self, rename: bool, args: &[String])
        requires
            roff_wf(old(self)@),
        ensures
            final(self)@ == rename_spec(old(self)@, rename, strings_view(args@)),
            roff_wf(final(self)@),
    {
        let ghost s0 = self@;
        let ghost av = strings_view(args@);
        if args.len() < 2 {
            return;
        }
        proof {
            assert(av[0] == args@[0]@ && av[1] == args@[1]@);
            lemma_key_index_from(s0.macros, av[0], 0);
            lemma_key_index_from(s0.strings, av[0], 0);
        }
        match find_key(&self.macros, args[0].as_str()) {
            Some(k) => {
                let m = self.macros[k].1.clone();
                let ghost mv = self.macros@[k as int].1@;
                proof {
                    assert(m@ =~= mv);
                }
                table_insert(&mut self.macros, args[1].clone(), m);
                proof {
                    lemma_set_unique(s0.macros, av[1], mv);
                }
            },
            None => {
                match find_key(&self.strings, args[0].as_str()) {
                    Some(k) => {
                        let t = self.strings[k].1.clone();
                        table_insert(&mut self.strings, args[1].clone(), t);
                        proof {
                            lemma_set_unique(s0.strings, av[1], t@);
                        }
                    },
                    None => {},
                }
            },
        }
        if rename {
            let ghost s1 = self@;
            table_delete(&mut self.macros, args[0].as_str());
            table_delete(&mut self.strings, args[0].as_str());
            proof {
                lemma_remove_unique(s1.macros, av[0]);
                lemma_remove_unique(s1.strings, av[0]);
            }
        }
        proof {
            assert(self@ =~= rename_spec(s0, rename, av));
        }
    }
}


/// A list of one effect.
fn one(e: Effect) -> (r: Vec<Effect>)
    ensures
        effects_view(r@) == seq![e@],
{
    let mut r: Vec<Effect> = Vec::new();
    r.push(e);
    proof {
        assert(effects_view(r@) =~= seq![e@]);
    }
    r
}

/// No effects.
fn none_effects() -> (r: Vec<Effect>)
    ensures
        effects_view(r@) == Seq::<EffectView>::empty(),
{
    let r: Vec<Effect> = Vec::new();
    proof {
        assert(effects_view(r@) =~= Seq::<EffectView>::empty());
    }
    r
}

/// `"."` followed by `t`.
fn dotted(t: &str) -> (r: String)
    ensures
        r@ == seq!['.'] + t@,
{
    let mut r = String::from_str(".");
    r.append(t);
    proof {
        reveal_strlit(".");
    }
    r
}

impl Roff {
    #[verifier::rlimit(60)]
    fn control_request(&mut self, name: &str, tail: &str, args: &[String], condition: Option<(bool, String)>) -> (r: Vec<
        Effect,
    >)
        ensures
            (final(self)@, effects_view(r@)) == control_spec(
                old(self)@,
                name@,
                tail@,
                strings_view(args@),
                cond_view(condition),
            ),
    {
        let ghost s0 = self@;
        let ghost av = strings_view(args@);
        let ghost cv = cond_view(condition);
        proof {
            reveal_strlit("..");
        }
        if str_eq(name, "de") || str_eq(name, "de1") || str_eq(name, "am") || str_eq(name, "am1") {
            let end = match opt_arg_at(args, 1) {
                Some(e) => dotted(e),
                None => dotted(".."),
            };
            let append = str_eq(name, "am") || str_eq(name, "am1");
            one(Effect::ReadDefinition { name: String::from_str(arg_at(args, 0)), end, append })
        } else if str_eq(name, "ig") {
            let e = arg_at(args, 0);
            let end = if e.unicode_len() == 0 {
                String::from_str("..")
            } else {
                dotted(e)
            };
            one(Effect::SkipBlock { end })
        } else if str_eq(name, "if") || str_eq(name, "ie") {
            match condition {
                Some((c, body)) => {
                    if str_eq(name, "ie") {
                        self.el_stack.push(!c);
                    }
                    let r = one(Effect::RunBody { run: c, body });
                    proof {
                        assert(self@ =~= control_spec(s0, name@, tail@, av, cv).0);
                    }
                    r
                },
                None => none_effects(),
            }
        } else if str_eq(name, "el") {
            let run = match self.el_stack.pop() {
                Some(c) => c,
                None => false,
            };
            let r = one(Effect::RunBody { run, body: String::from_str(tail) });
            proof {
                assert(self@ =~= control_spec(s0, name@, tail@, av, cv).0);
            }
            r
        } else if str_eq(name, "while") {
            let t = chars_of(tail);
            match first_brace(&t) {
                Some(p) => {
                    assert(p + 2 <= t.len());
                    let rest = string_of(&crate::text::slice_chars(&t, p + 2, t.len()));
                    proof {
                        assert(rest@ =~= tail@.skip(p + 2));
                    }
                    one(Effect::SkipLoop { rest })
                },
                None => none_effects(),
            }
        } else if str_eq(name, "so") {
            if tail.unicode_len() > 0 {
                one(Effect::Source { path: String::from_str(tail) })
            } else {
                none_effects()
            }
        } else if str_eq(name, "shift") {
            let count = match parse_usize_str(arg_at(args, 0)) {
                Some(n) => n,
                None => 1,
            };
            one(Effect::Shift { count })
        } else if str_eq(name, "return") {
            one(Effect::Return)
        } else if str_eq(name, "nop") {
            one(Effect::RunLine { line: String::from_str(tail) })
        } else if str_eq(name, "do") {
            one(Effect::RunRequest { line: dotted(tail) })
        } else if str_eq(name, "ab") {
            self.exited = true;
            let r = if tail.unicode_len() > 0 {
                one(Effect::Message { text: String::from_str(tail) })
            } else {
                none_effects()
            };
            proof {
                assert(self@ =~= control_spec(s0, name@, tail@, av, cv).0);
            }
            r
        } else if str_eq(name, "tm") {
            one(Effect::Message { text: String::from_str(tail) })
        } else {
            none_effects()
        }
    }

    /// What a request does to the state and the effects it sets in motion
    /// (the output of `output_before` comes first). The caller evaluates
    /// the lengths that `length_queries` names, and for `.if`/`.ie` the
    /// condition with the text after it.
    pub fn request(
        &mut self,
        name: &str,
        tail: &str,
        args: &[String],
        lengths: &[Option<i64>],
        condition: Option<(bool, String)>,
    ) -> (r: Vec<Effect>)
        requires
            old(self).wf(),
            request_ok_spec(old(self)@, name@, strings_view(args@), lengths@),
        ensures
            final(self).wf(),
            (final(self)@, effects_view(r@)) == request_spec(
                old(self)@,
                name@,
                tail@,
                strings_view(args@),
                lengths@,
                cond_view(condition),
            ),
    {
        if is_layout_name(name) {
            self.layout_request(name, tail, args, lengths);
            none_effects()
        } else if is_table_name(name) {
            self.table_request(name, tail, args, lengths);
            none_effects()
        } else {
            self.control_request(name, tail, args, condition)
        }
    }

    /// Whether a request can be carried out (see `request_ok_spec`).
    pub fn request_ok(&self, name: &str, args: &[String], lengths: &[Option<i64>]) -> (r: bool)
        ensures
            r == request_ok_spec(self@, name@, strings_view(args@), lengths@),
    {
        let ghost av = strings_view(args@);
        proof {
            reveal_strlit("nr");
            reveal_strlit("ta");
        }
        if str_eq(name, "nr") && args.len() >= 2 {
            proof {
                assert(name@[0] == 'n');
                assert(name@ != "ta"@);
                assert(av[0] == args@[0]@ && av[1] == args@[1]@);
                lemma_key_index_from(table_view(self.registers@), av[0], 0);
            }
            match len_of(lengths, 0) {
                Some(v) => {
                    let ghost tv = table_view(self.registers@);
                    let old: i64 = match find_key(&self.registers, args[0].as_str()) {
                        Some(k) => {
                            proof {
                                assert(tv[k as int] == (self.registers@[k as int].0@, self.registers@[k as int].1@));
                                assert(table_get(tv, av[0]) == Some(tv[k as int].1));
                            }
                            self.registers[k].1
                        },
                        None => 0,
                    };
                    proof {
                        assert(old as int == match table_get(tv, av[0]) {
                            Some(o) => o as int,
                            None => 0,
                        });
                    }
                    let sg = sign_of_str(args[1].as_str());
                    let new: i128 = if sg > 0 {
                        old as i128 + v as i128
                    } else if sg < 0 {
                        old as i128 - v as i128
                    } else {
                        v as i128
                    };
                    proof {
                        assert(new == nr_value(self@, av[0], av[1], v));
                    }
                    return i64::MIN as i128 <= new && new <= i64::MAX as i128;
                },
                None => {
                    return true;
                },
            }
        }
        if str_eq(name, "ta") {
            return tab_stops_fit(&tab_specs(args, lengths));
        }
        true
    }
}


/// The output before a request or macro changes the state.
pub fn output_before(r: &Roff, name: &str, tail: &str, lengths: &[Option<i64>]) -> (b: Before)
    ensures
        b == before_spec(r@, name@, tail@, lengths@),
{
    if str_eq(name, "br") || str_eq(name, "in") || str_eq(name, "ti") || str_eq(name, "fi") || str_eq(name, "nf")
        || str_eq(name, "ce") || str_eq(name, "TH") || str_eq(name, "RS") || str_eq(name, "RE") || str_eq(name, "EX")
        || str_eq(name, "EE") || str_eq(name, "YS") {
        Before::Flush { adjust_both: false }
    } else if str_eq(name, "TQ") {
        Before::Flush { adjust_both: true }
    } else if str_eq(name, "sp") {
        Before::Space(
            if tail.unicode_len() == 0 {
                1
            } else {
                match len_of(lengths, 0) {
                    Some(v) => nonneg_of(v),
                    None => 1,
                }
            },
        )
    } else if str_eq(name, "SH") || str_eq(name, "SS") || str_eq(name, "PP") || str_eq(name, "P") || str_eq(name, "LP")
        || str_eq(name, "SY") || str_eq(name, "IP") {
        Before::ParaSpace { adjust_both: false }
    } else if str_eq(name, "TP") {
        Before::ParaSpace { adjust_both: true }
    } else if str_eq(name, "HP") {
        if r.page.no_space && r.page.after_heading {
            Before::DoubleBlank
        } else {
            Before::ParaSpace { adjust_both: false }
        }
    } else {
        Before::Nothing
    }
}

/// A text without its sign.
fn unsigned_str(t: &str) -> (r: String)
    ensures
        r@ == unsigned_part(t@),
{
    let v = chars_of(t);
    if v.len() > 0 && (v[0] == '+' || v[0] == '-') {
        string_of(&crate::text::slice_chars(&v, 1, v.len()))
    } else {
        String::from_str(t)
    }
}

/// A tab stop argument without its sign `+` and its alignment letters.
fn stop_expr(a: &str) -> (r: String)
    ensures
        r@ == trim_align(if a@.len() > 0 && a@[0] == '+' { a@.drop_first() } else { a@ }),
{
    let v = chars_of(a);
    let start: usize = if v.len() > 0 && v[0] == '+' {
        1
    } else {
        0
    };
    let ghost b = if a@.len() > 0 && a@[0] == '+' { a@.drop_first() } else { a@ };
    let mut e = v.len();
    proof {
        assert(v@.subrange(start as int, e as int) =~= b);
    }
    while e > start && (v[e - 1] == 'R' || v[e - 1] == 'L' || v[e - 1] == 'C' || v[e - 1] == 'T')
        invariant
            start <= e <= v@.len(),
            trim_align(v@.subrange(start as int, e as int)) == trim_align(b),
        decreases e,
    {
        proof {
            assert(v@.subrange(start as int, e as int).drop_last() =~= v@.subrange(start as int, e - 1));
        }
        e -= 1;
    }
    string_of(&crate::text::slice_chars(&v, start, e))
}

/// The views of a list of queries.
pub open spec fn queries_view(q: Seq<(String, Scale)>) -> Seq<(Seq<char>, Scale)> {
    q.map_values(|e: (String, Scale)| (e.0@, e.1))
}

/// The expressions a request or macro evaluates, with their scales.
pub fn length_queries(name: &str, tail: &str, args: &[String]) -> (r: Vec<(String, Scale)>)
    ensures
        queries_view(r@) == length_queries_spec(name@, tail@, strings_view(args@)),
{
    let ghost av = strings_view(args@);
    let mut r: Vec<(String, Scale)> = Vec::new();
    let nonempty = tail.unicode_len() > 0;
    if str_eq(name, "sp") {
        if nonempty {
            r.push((String::from_str(tail), Scale::SpaceLines));
        }
    } else if str_eq(name, "ll") || str_eq(name, "in") {
        if nonempty {
            r.push((unsigned_str(tail), Scale::Columns));
        }
    } else if str_eq(name, "ti") {
        r.push((String::from_str(tail), Scale::Columns));
    } else if str_eq(name, "nr") {
        if args.len() >= 2 {
            r.push((unsigned_str(args[1].as_str()), Scale::Units));
        }
    } else if str_eq(name, "ta") {
        let mut k: usize = 0;
        while k < args.len()
            invariant
                k <= args@.len(),
                av == strings_view(args@),
                queries_view(r@) == ta_queries(av).take(k as int),
            decreases args.len() - k,
        {
            let e = stop_expr(args[k].as_str());
            let ghost ev = e@;
            let ghost before = r@;
            r.push((e, Scale::Columns));
            proof {
                assert(av[k as int] == args@[k as int]@);
                assert(ta_queries(av)[k as int] == (ev, Scale::Columns));
                assert(queries_view(r@) =~= queries_view(before).push((ev, Scale::Columns)));
                assert(ta_queries(av).take(k + 1) =~= ta_queries(av).take(k as int).push((ev, Scale::Columns)));
                assert(queries_view(r@) =~= ta_queries(av).take(k + 1));
            }
            k += 1;
        }
        proof {
            assert(ta_queries(av).take(k as int) =~= ta_queries(av));
        }
    } else if str_eq(name, "PD") {
        if args.len() > 0 {
            r.push((args[0].clone(), Scale::Lines));
        }
    } else if str_eq(name, "IP") {
        if args.len() > 1 {
            r.push((args[1].clone(), Scale::Columns));
        }
    } else if str_eq(name, "TP") || str_eq(name, "TQ") || str_eq(name, "HP") || str_eq(name, "RS") {
        if args.len() > 0 {
            r.push((args[0].clone(), Scale::Columns));
        }
    }
    proof {
        reveal_strlit("sp");
        reveal_strlit("ta");
        reveal_strlit("ll");
        reveal_strlit("in");
        reveal_strlit("ti");
        reveal_strlit("nr");
        assert(queries_view(r@) =~= length_queries_spec(name@, tail@, av));
    }
    r
}


/// The prevailing indent after a length argument, where one was given.
pub open spec fn ind_prevailing(i: IndentsView, len: Option<usize>) -> IndentsView {
    IndentsView { prevail_indent: match len { Some(v) => v, None => i.prevail_indent }, ..i }
}

/// The indents of `.RS` with an optional length.
pub open spec fn ind_rs(i: IndentsView, len: Option<usize>) -> IndentsView {
    let d = match len { Some(v) => v, None => i.prevail_indent };
    IndentsView { rs_stack: i.rs_stack.push(d), base_indent: (i.base_indent + d) as usize, indent: (i.base_indent + d) as usize, ..i }
}

/// The columns a length argument gives where the argument is there.
pub open spec fn arg_len(args: Seq<Seq<char>>, need: int, lengths: Seq<Option<i64>>) -> Option<usize> {
    if args.len() > need { len_cols(lengths, 0) } else { None }
}

/// `.TH`: the line length from the `LL` register, body text at the body
/// indent, and the header to set; the manual's name defaults by section.
pub open spec fn th_spec(s: RoffView, args: Seq<Seq<char>>) -> (RoffView, Seq<EffectView>) {
    let ll = match table_get(s.registers, "LL"@) {
        Some(u) => ll_from_units(s.ll, u),
        None => s.ll,
    };
    let sec = arg(args, 1);
    let manual = match opt_arg(args, 4) { Some(m) => m, None => section_name_spec(sec) };
    (
        RoffView {
            ll,
            ind: IndentsView { base_indent: BODY_INDENT, indent: BODY_INDENT, ..s.ind },
            page: PageOutputView { no_space: true, after_heading: true, ..s.page },
            ..s
        },
        seq![EffectView::Title { title: arg(args, 0), section: sec, date: arg(args, 2), source: arg(args, 3), manual }],
    )
}

/// `.SH` and `.SS`: all insets close, filling in roman type; the heading
/// is set now at column `col`, or from the next line when no argument
/// gives it; no blank line follows.
pub open spec fn heading_spec(s: RoffView, args: Seq<Seq<char>>, col: usize) -> (RoffView, Seq<EffectView>) {
    (
        RoffView {
            ind: IndentsView {
                base_indent: BODY_INDENT,
                prevail_indent: BODY_INDENT,
                rs_stack: Seq::empty(),
                indent: BODY_INDENT,
                temp_indent: None,
            },
            fill: true,
            font: 'R',
            pending_heading: if args.len() == 0 { Some(col) } else { s.pending_heading },
            page: PageOutputView { no_space: true, after_heading: true, ..s.page },
            ..s
        },
        if args.len() == 0 { Seq::empty() } else { seq![EffectView::Heading { text: join_blank(args), col }] },
    )
}

/// `.IP tag [indent]`: both margins adjusted; with a tag it waits for its
/// text at the prevailing indent, else lines start past it.
pub open spec fn ip_spec(s: RoffView, args: Seq<Seq<char>>, lengths: Seq<Option<i64>>) -> (RoffView, Seq<EffectView>) {
    let i1 = ind_prevailing(s.ind, arg_len(args, 1, lengths));
    let tag = arg(args, 0);
    if tag.len() == 0 {
        (
            RoffView {
                adjust: Adjust::Both,
                ind: IndentsView { indent: (i1.base_indent + i1.prevail_indent) as usize, temp_indent: None, ..i1 },
                ..s
            },
            Seq::empty(),
        )
    } else {
        (
            RoffView { adjust: Adjust::Both, ind: i1, tag_pending: Some(i1.prevail_indent), font: 'R', ..s },
            seq![EffectView::Tag { tag, font: s.font }],
        )
    }
}

/// The man macros on layout and paragraphs.
pub open spec fn man_layout_spec(s: RoffView, name: Seq<char>, args: Seq<Seq<char>>, lengths: Seq<Option<i64>>) -> (
    RoffView,
    Seq<EffectView>,
) {
    if name == "TH"@ {
        th_spec(s, args)
    } else if name == "SH"@ {
        heading_spec(s, args, 0)
    } else if name == "SS"@ {
        heading_spec(s, args, 3)
    } else if name == "PP"@ || name == "P"@ || name == "LP"@ {
        (
            RoffView {
                ind: IndentsView { prevail_indent: BODY_INDENT, indent: s.ind.base_indent, temp_indent: None, ..s.ind },
                fill: true,
                ..s
            },
            Seq::empty(),
        )
    } else if name == "PD"@ {
        (RoffView { pd: if args.len() == 0 { 1 } else { match len_at(lengths, 0) { Some(v) => nonneg(v), None => 1 } }, ..s }, Seq::empty())
    } else if name == "IP"@ {
        ip_spec(s, args, lengths)
    } else if name == "TP"@ || name == "TQ"@ {
        let i1 = ind_prevailing(s.ind, arg_len(args, 0, lengths));
        (RoffView { adjust: Adjust::Both, ind: i1, tag_pending: Some(i1.prevail_indent), ..s }, seq![EffectView::ClearTag])
    } else if name == "HP"@ {
        let i1 = ind_prevailing(s.ind, arg_len(args, 0, lengths));
        (
            RoffView {
                ind: IndentsView {
                    indent: (i1.base_indent + i1.prevail_indent) as usize,
                    temp_indent: Some(i1.base_indent),
                    ..i1
                },
                ..s
            },
            Seq::empty(),
        )
    } else if name == "RS"@ {
        (RoffView { ind: ind_rs(s.ind, arg_len(args, 0, lengths)), ..s }, Seq::empty())
    } else if name == "RE"@ {
        (RoffView { ind: re_spec(s.ind, parse_usize_spec(arg(args, 0))), ..s }, Seq::empty())
    } else if name == "EX"@ {
        (RoffView { fill: false, ..s }, Seq::empty())
    } else if name == "EE"@ {
        (RoffView { fill: true, ..s }, Seq::empty())
    } else if name == "YS"@ {
        (RoffView { ind: IndentsView { indent: s.ind.base_indent, temp_indent: None, ..s.ind }, ..s }, Seq::empty())
    } else if name == "DT"@ {
        (RoffView { tab_stops: Seq::new(20, |i: int| ((i + 1) * 8) as usize), ..s }, Seq::empty())
    } else {
        (s, Seq::empty())
    }
}

/// Whether a man macro is on layout and paragraphs.
pub open spec fn is_man_layout(name: Seq<char>) -> bool {
    name == "TH"@ || name == "SH"@ || name == "SS"@ || name == "PP"@ || name == "P"@ || name == "LP"@ || name == "PD"@
        || name == "IP"@ || name == "TP"@ || name == "TQ"@ || name == "HP"@ || name == "RS"@ || name == "RE"@
        || name == "EX"@ || name == "EE"@ || name == "YS"@ || name == "DT"@
}

/// The man macros on fonts, links, synopses and options.
pub open spec fn man_text_spec(s: RoffView, name: Seq<char>, args: Seq<Seq<char>>) -> (RoffView, Seq<EffectView>) {
    if name == "B"@ || name == "I"@ || name == "SM"@ || name == "SB"@ {
        let f = macro_font_spec(name);
        if args.len() == 0 {
            (RoffView { next_line_font: Some(f), ..s }, Seq::empty())
        } else {
            (RoffView { font: 'R', ..s }, seq![EffectView::EmitText { text: join_blank(args), font: f }])
        }
    } else if alt_fonts_spec(name) is Some {
        let (a, b) = alt_fonts_spec(name)->Some_0;
        if args.len() == 0 {
            (s, Seq::empty())
        } else {
            (RoffView { font: 'R', ..s }, seq![EffectView::EmitAlternating { args, first: a, second: b }])
        }
    } else if name == "UR"@ || name == "MT"@ {
        (RoffView { link_url: opt_arg(args, 0), ..s }, Seq::empty())
    } else if name == "UE"@ || name == "ME"@ {
        match s.link_url {
            Some(u) => (RoffView { link_url: None, ..s }, seq![EffectView::EmitLink { url: u, trailing: opt_arg(args, 0) }]),
            None => (s, Seq::empty()),
        }
    } else if name == "SY"@ {
        (RoffView { font: 'R', ..s }, seq![EffectView::Synopsis { cmd: arg(args, 0) }])
    } else if name == "OP"@ {
        (RoffView { font: 'R', ..s }, seq![EffectView::EmitOption { opt: opt_arg(args, 0), arg: opt_arg(args, 1) }])
    } else {
        (s, Seq::empty())
    }
}

/// What a man macro does to the state and the effects it sets in motion
/// (after the output of `before_spec`); unknown macros do nothing.
pub open spec fn man_macro_spec(s: RoffView, name: Seq<char>, args: Seq<Seq<char>>, lengths: Seq<Option<i64>>) -> (
    RoffView,
    Seq<EffectView>,
) {
    if is_man_layout(name) {
        man_layout_spec(s, name, args, lengths)
    } else {
        man_text_spec(s, name, args)
    }
}

/// Whether a man macro can be carried out: the indents it adds fit.
pub open spec fn man_macro_ok_spec(s: RoffView, name: Seq<char>, args: Seq<Seq<char>>, lengths: Seq<Option<i64>>) -> bool {
    &&& name == "IP"@ && arg(args, 0).len() == 0 ==> s.ind.base_indent + ind_prevailing(s.ind, arg_len(args, 1, lengths)).prevail_indent <= usize::MAX
    &&& name == "HP"@ ==> s.ind.base_indent + ind_prevailing(s.ind, arg_len(args, 0, lengths)).prevail_indent <= usize::MAX
    &&& name == "RS"@ ==> s.ind.base_indent + ind_prevailing(s.ind, arg_len(args, 0, lengths)).prevail_indent <= usize::MAX
}


/// The arguments joined by single blanks.
fn join_args(args: &[String]) -> (r: String)
    ensures
        r@ == join_blank(strings_view(args@)),
{
    let ghost av = strings_view(args@);
    let mut r = String::new();
    let mut k: usize = 0;
    proof {
        reveal_strlit("");
        reveal_strlit(" ");
        assert(av.take(0) =~= Seq::<Seq<char>>::empty());
    }
    while k < args.len()
        invariant
            k <= args@.len(),
            av == strings_view(args@),
            r@ == join_blank(av.take(k as int)),
        decreases args.len() - k,
    {
        proof {
            assert(av.take(k + 1).drop_last() =~= av.take(k as int));
            assert(av.take(k + 1).last() == args@[k as int]@);
        }
        if k > 0 {
            r.append(" ");
        }
        r.append(args[k].as_str());
        proof {
            if k == 0 {
                assert(r@ =~= av.take(1)[0]);
            } else {
                reveal_strlit(" ");
                assert(r@ =~= join_blank(av.take(k as int)) + seq![' '] + av.take(k + 1).last());
            }
        }
        k += 1;
    }
    proof {
        assert(av.take(args@.len() as int) =~= av);
    }
    r
}

/// The columns a length argument gives where the argument is there.
fn arg_len_of(args: &[String], need: usize, lengths: &[Option<i64>]) -> (r: Option<usize>)
    ensures
        r == arg_len(strings_view(args@), need as int, lengths@),
{
    if args.len() > need {
        match len_of(lengths, 0) {
            Some(v) => Some(nonneg_of(v)),
            None => None,
        }
    } else {
        None
    }
}

/// An optional argument as an owned text.
fn opt_string(args: &[String], k: usize) -> (r: Option<String>)
    ensures
        opt_view(r) == opt_arg(strings_view(args@), k as int),
{
    if k < args.len() {
        Some(args[k].clone())
    } else {
        None
    }
}

/// A copy of a list of texts.
fn copy_strings(args: &[String]) -> (r: Vec<String>)
    ensures
        strings_view(r@) == strings_view(args@),
{
    let mut r: Vec<String> = Vec::new();
    let mut k: usize = 0;
    while k < args.len()
        invariant
            k <= args@.len(),
            strings_view(r@) == strings_view(args@).take(k as int),
        decreases args.len() - k,
    {
        let ghost before = r@;
        let c = args[k].clone();
        proof {
            assert(c@ == args@[k as int]@);
        }
        r.push(c);
        proof {
            assert(strings_view(r@) =~= strings_view(before).push(args@[k as int]@));
            assert(strings_view(args@).take(k + 1) =~= strings_view(args@).take(k as int).push(args@[k as int]@));
        }
        k += 1;
    }
    proof {
        assert(strings_view(args@).take(k as int) =~= strings_view(args@));
    }
    r
}

impl Roff {
    #[verifier::rlimit(80)]
    fn man_layout(&mut self, name: &str, args: &[String], lengths: &[Option<i64>]) -> (r: Vec<Effect>)
        requires
            man_macro_ok_spec(old(self)@, name@, strings_view(args@), lengths@),
        ensures
            (final(self)@, effects_view(r@)) == man_layout_spec(old(self)@, name@, strings_view(args@), lengths@),
    {
        let ghost s0 = self@;
        let ghost av = strings_view(args@);
        proof {
            reveal_strlit("LL");
            reveal_strlit("IP");
            reveal_strlit("HP");
            reveal_strlit("RS");
        }
        if str_eq(name, "TH") {
            self.man_title(args)
        } else if str_eq(name, "SH") {
            self.man_heading(args, 0)
        } else if str_eq(name, "SS") {
            self.man_heading(args, 3)
        } else if str_eq(name, "PP") || str_eq(name, "P") || str_eq(name, "LP") {
            self.ind.paragraph();
            self.fill = true;
            let r = none_effects();
            proof {
                assert(self@ =~= man_layout_spec(s0, name@, av, lengths@).0);
            }
            r
        } else if str_eq(name, "PD") {
            self.pd = if args.len() == 0 {
                1
            } else {
                match len_of(lengths, 0) {
                    Some(v) => nonneg_of(v),
                    None => 1,
                }
            };
            let r = none_effects();
            proof {
                assert(self@ =~= man_layout_spec(s0, name@, av, lengths@).0);
            }
            r
        } else if str_eq(name, "IP") {
            self.adjust = Adjust::Both;
            self.ind.set_prevailing(arg_len_of(args, 1, lengths));
            let tag = arg_at(args, 0);
            if tag.unicode_len() == 0 {
                self.ind.untagged();
                let r = none_effects();
                proof {
                    assert(self@ =~= man_layout_spec(s0, name@, av, lengths@).0);
                }
                r
            } else {
                let f = self.font;
                self.tag_pending = Some(self.ind.prevail_indent);
                self.font = 'R';
                let r = one(Effect::Tag { tag: String::from_str(tag), font: f });
                proof {
                    assert(self@ =~= man_layout_spec(s0, name@, av, lengths@).0);
                }
                r
            }
        } else if str_eq(name, "TP") || str_eq(name, "TQ") {
            self.adjust = Adjust::Both;
            self.ind.set_prevailing(arg_len_of(args, 0, lengths));
            self.tag_pending = Some(self.ind.prevail_indent);
            let r = one(Effect::ClearTag);
            proof {
                assert(self@ =~= man_layout_spec(s0, name@, av, lengths@).0);
            }
            r
        } else if str_eq(name, "HP") {
            self.ind.set_prevailing(arg_len_of(args, 0, lengths));
            self.ind.hanging();
            let r = none_effects();
            proof {
                assert(self@ =~= man_layout_spec(s0, name@, av, lengths@).0);
            }
            r
        } else if str_eq(name, "RS") {
            self.ind.rs(arg_len_of(args, 0, lengths));
            let r = none_effects();
            proof {
                assert(self@ =~= man_layout_spec(s0, name@, av, lengths@).0);
            }
            r
        } else if str_eq(name, "RE") {
            self.ind.re(parse_usize_str(arg_at(args, 0)));
            let r = none_effects();
            proof {
                assert(self@ =~= man_layout_spec(s0, name@, av, lengths@).0);
            }
            r
        } else if str_eq(name, "EX") {
            self.fill = false;
            let r = none_effects();
            proof {
                assert(self@ =~= man_layout_spec(s0, name@, av, lengths@).0);
            }
            r
        } else if str_eq(name, "EE") {
            self.fill = true;
            let r = none_effects();
            proof {
                assert(self@ =~= man_layout_spec(s0, name@, av, lengths@).0);
            }
            r
        } else if str_eq(name, "YS") {
            self.ind.to_base();
            let r = none_effects();
            proof {
                assert(self@ =~= man_layout_spec(s0, name@, av, lengths@).0);
            }
            r
        } else if str_eq(name, "DT") {
            let mut stops: Vec<usize> = Vec::new();
            let mut q: usize = 0;
            while q < 20
                invariant
                    q <= 20,
                    stops@ == Seq::new(q as nat, |i: int| ((i + 1) * 8) as usize),
                decreases 20 - q,
            {
                stops.push((q + 1) * 8);
                q += 1;
                proof {
                    assert(stops@ =~= Seq::new(q as nat, |i: int| ((i + 1) * 8) as usize));
                }
            }
            self.tab_stops = stops;
            let r = none_effects();
            proof {
                assert(self@ =~= man_layout_spec(s0, name@, av, lengths@).0);
            }
            r
        } else {
            none_effects()
        }
    }

    fn man_title(&mut self, args: &[String]) -> (r: Vec<Effect>)
        ensures
            (final(self)@, effects_view(r@)) == th_spec(old(self)@, strings_view(args@)),
    {
        let ghost s0 = self@;
        let ghost av = strings_view(args@);
        proof {
            lemma_key_index_from(s0.registers, "LL"@, 0);
        }
        match find_key(&self.registers, "LL") {
            Some(k) => {
                let u = self.registers[k].1;
                proof {
                    assert(table_view(self.registers@)[k as int].1 == u);
                }
                if u > 0 {
                    let c: i64 = u / 24 + if u % 24 >= 12 {
                        1
                    } else {
                        0
                    };
                    proof {
                        assert(c == (u + 12) / 24) by (nonlinear_arith)
                            requires
                                u > 0,
                                c == u / 24 + if u % 24 >= 12 { 1int } else { 0int },
                        ;
                    }
                    if c > 0 {
                        self.ll = c as usize;
                    }
                }
            },
            None => {},
        }
        self.ind.title();
        self.page.no_space = true;
        self.page.after_heading = true;
        let sec = arg_at(args, 1);
        let manual = match opt_arg_at(args, 4) {
            Some(m) => String::from_str(m),
            None => String::from_str(crate::groff::default_section_name(sec)),
        };
        let r = one(
            Effect::Title {
                title: String::from_str(arg_at(args, 0)),
                section: String::from_str(sec),
                date: String::from_str(arg_at(args, 2)),
                source: String::from_str(arg_at(args, 3)),
                manual,
            },
        );
        proof {
            assert(self@ =~= th_spec(s0, av).0);
        }
        r
    }

    fn man_heading(&mut self, args: &[String], col: usize) -> (r: Vec<Effect>)
        ensures
            (final(self)@, effects_view(r@)) == heading_spec(old(self)@, strings_view(args@), col),
    {
        let ghost s0 = self@;
        self.ind.section();
        self.fill = true;
        self.font = 'R';
        self.page.no_space = true;
        self.page.after_heading = true;
        let r = if args.len() == 0 {
            self.pending_heading = Some(col);
            none_effects()
        } else {
            one(Effect::Heading { text: join_args(args), col })
        };
        proof {
            assert(self@ =~= heading_spec(s0, strings_view(args@), col).0);
        }
        r
    }

    #[verifier::rlimit(60)]
    fn man_text(&mut self, name: &str, args: &[String]) -> (r: Vec<Effect>)
        ensures
            (final(self)@, effects_view(r@)) == man_text_spec(old(self)@, name@, strings_view(args@)),
    {
        let ghost s0 = self@;
        let ghost av = strings_view(args@);
        if str_eq(name, "B") || str_eq(name, "I") || str_eq(name, "SM") || str_eq(name, "SB") {
            let f = macro_font(name);
            if args.len() == 0 {
                self.next_line_font = Some(f);
                none_effects()
            } else {
                self.font = 'R';
                one(Effect::EmitText { text: join_args(args), font: f })
            }
        } else {
            match alt_fonts(name) {
                Some((a, b)) => {
                    if args.len() == 0 {
                        none_effects()
                    } else {
                        self.font = 'R';
                        let v = copy_strings(args);
                        one(Effect::EmitAlternating { args: v, first: a, second: b })
                    }
                },
                None => {
                    if str_eq(name, "UR") || str_eq(name, "MT") {
                        self.link_url = opt_string(args, 0);
                        none_effects()
                    } else if str_eq(name, "UE") || str_eq(name, "ME") {
                        match self.link_url.take() {
                            Some(u) => one(Effect::EmitLink { url: u, trailing: opt_string(args, 0) }),
                            None => none_effects(),
                        }
                    } else if str_eq(name, "SY") {
                        self.font = 'R';
                        one(Effect::Synopsis { cmd: String::from_str(arg_at(args, 0)) })
                    } else if str_eq(name, "OP") {
                        self.font = 'R';
                        one(Effect::EmitOption { opt: opt_string(args, 0), arg: opt_string(args, 1) })
                    } else {
                        none_effects()
                    }
                },
            }
        }
    }

    /// What a man macro does to the state and the effects it sets in
    /// motion (the output of `output_before` comes first). The caller
    /// evaluates the lengths that `length_queries` names.
    pub fn man_macro(&mut self, name: &str, args: &[String], lengths: &[Option<i64>]) -> (r: Vec<Effect>)
        requires
            old(self).wf(),
            man_macro_ok_spec(old(self)@, name@, strings_view(args@), lengths@),
        ensures
            final(self).wf(),
            (final(self)@, effects_view(r@)) == man_macro_spec(old(self)@, name@, strings_view(args@), lengths@),
    {
        let is_layout = str_eq(name, "TH") || str_eq(name, "SH") || str_eq(name, "SS") || str_eq(name, "PP")
            || str_eq(name, "P") || str_eq(name, "LP") || str_eq(name, "PD") || str_eq(name, "IP") || str_eq(name, "TP")
            || str_eq(name, "TQ") || str_eq(name, "HP") || str_eq(name, "RS") || str_eq(name, "RE") || str_eq(name, "EX")
            || str_eq(name, "EE") || str_eq(name, "YS") || str_eq(name, "DT");
        if is_layout {
            self.man_layout(name, args, lengths)
        } else {
            self.man_text(name, args)
        }
    }

    /// Whether a man macro can be carried out (see `man_macro_ok_spec`).
    pub fn man_macro_ok(&self, name: &str, args: &[String], lengths: &[Option<i64>]) -> (r: bool)
        ensures
            r == man_macro_ok_spec(self@, name@, strings_view(args@), lengths@),
    {
        proof {
            reveal_strlit("IP");
            reveal_strlit("HP");
            reveal_strlit("RS");
        }
        let base = self.ind.base_indent;
        if str_eq(name, "IP") {
            proof {
                assert(name@[0] == 'I');
                assert(name@ != "HP"@ && name@ != "RS"@);
            }
            if arg_at(args, 0).unicode_len() == 0 {
                let p = match arg_len_of(args, 1, lengths) {
                    Some(v) => v,
                    None => self.ind.prevail_indent,
                };
                return base as u128 + p as u128 <= usize::MAX as u128;
            }
            return true;
        }
        if str_eq(name, "HP") || str_eq(name, "RS") {
            proof {
                assert(name@.len() == 2 && (name@[0] == 'H' || name@[0] == 'R'));
                assert(name@ != "IP"@);
            }
            let p = match arg_len_of(args, 0, lengths) {
                Some(v) => v,
                None => self.ind.prevail_indent,
            };
            return base as u128 + p as u128 <= usize::MAX as u128;
        }
        true
    }
}


/// A register's value as read by `\n`: the built-in ones from the layout
/// (line length and indent in basic units, the line and character units,
/// fill mode, no macro arguments); else the register moved by its step
/// (1 where unset) in the direction `sign`, or its value (0 where unset).
pub open spec fn register_read_spec(s: RoffView, name: Seq<char>, sign: i8) -> (RoffView, i64) {
    if name == ".l"@ {
        (s, sat64(s.ll * 24))
    } else if name == ".i"@ {
        (s, sat64(s.ind.indent * 24))
    } else if name == ".v"@ || name == ".V"@ {
        (s, 40)
    } else if name == ".H"@ {
        (s, 24)
    } else if name == ".u"@ {
        (s, if s.fill { 1 } else { 0 })
    } else if name == ".$"@ {
        (s, 0)
    } else {
        let cur: int = match table_get(s.registers, name) { Some(v) => v as int, None => 0 };
        if sign != 0 {
            let step: int = match table_get(s.reg_steps, name) { Some(v) => v as int, None => 1 };
            let v = sat64(if sign > 0 { cur + step } else { cur - step });
            (RoffView { registers: table_set(s.registers, name, v), ..s }, v)
        } else {
            (s, cur as i64)
        }
    }
}

/// `x` cut to the range of `i64`.
pub open spec fn sat64(x: int) -> i64 {
    if x > i64::MAX { i64::MAX } else if x < i64::MIN { i64::MIN } else { x as i64 }
}

/// A macro with `body` defined (or appended to, where `append` holds)
/// under `name`; no name defines nothing.
pub open spec fn define_spec(s: RoffView, name: Seq<char>, body: Seq<String>, append: bool) -> RoffView {
    if name.len() == 0 {
        s
    } else if append {
        let old = match table_get(s.macros, name) { Some(b) => b, None => Seq::empty() };
        RoffView { macros: table_set(s.macros, name, old + body), ..s }
    } else {
        RoffView { macros: table_set(s.macros, name, body), ..s }
    }
}

fn sat64_of(x: i128) -> (r: i64)
    ensures
        r == sat64(x as int),
{
    if x > i64::MAX as i128 {
        i64::MAX
    } else if x < i64::MIN as i128 {
        i64::MIN
    } else {
        x as i64
    }
}

impl Roff {
    /// Reads a register for `\n` (see `register_read_spec`).
    pub fn read_register(&mut self, name: &str, sign: i8) -> (r: i64)
        requires
            old(self).wf(),
        ensures
            final(self).wf(),
            (final(self)@, r) == register_read_spec(old(self)@, name@, sign),
    {
        let ghost s0 = self@;
        if str_eq(name, ".l") {
            return sat64_of(self.ll as i128 * 24);
        }
        if str_eq(name, ".i") {
            return sat64_of(self.ind.indent as i128 * 24);
        }
        if str_eq(name, ".v") || str_eq(name, ".V") {
            return 40;
        }
        if str_eq(name, ".H") {
            return 24;
        }
        if str_eq(name, ".u") {
            return if self.fill {
                1
            } else {
                0
            };
        }
        if str_eq(name, ".$") {
            return 0;
        }
        proof {
            lemma_key_index_from(s0.registers, name@, 0);
            lemma_key_index_from(s0.reg_steps, name@, 0);
        }
        let ghost tv = table_view(self.registers@);
        let cur: i64 = match find_key(&self.registers, name) {
            Some(k) => {
                proof {
                    assert(tv[k as int] == (self.registers@[k as int].0@, self.registers@[k as int].1@));
                }
                self.registers[k].1
            },
            None => 0,
        };
        proof {
            assert(cur as int == match table_get(tv, name@) {
                Some(v) => v as int,
                None => 0,
            });
        }
        if sign != 0 {
            let ghost sv = table_view(self.reg_steps@);
            let step: i64 = match find_key(&self.reg_steps, name) {
                Some(k) => {
                    proof {
                        assert(sv[k as int] == (self.reg_steps@[k as int].0@, self.reg_steps@[k as int].1@));
                    }
                    self.reg_steps[k].1
                },
                None => 1,
            };
            proof {
                assert(step as int == match table_get(sv, name@) {
                    Some(v) => v as int,
                    None => 1,
                });
            }
            let v = sat64_of(if sign > 0 {
                cur as i128 + step as i128
            } else {
                cur as i128 - step as i128
            });
            table_insert(&mut self.registers, String::from_str(name), v);
            proof {
                lemma_set_unique(s0.registers, name@, v);
                assert(self@ =~= register_read_spec(s0, name@, sign).0);
            }
            v
        } else {
            cur
        }
    }

    /// Defines a macro from the lines read after `.de` or `.am`.
    pub fn define_macro(&mut self, name: &str, body: Vec<String>, append: bool)
        requires
            old(self).wf(),
        ensures
            final(self).wf(),
            final(self)@ == define_spec(old(self)@, name@, body@, append),
    {
        let ghost s0 = self@;
        let ghost bv = body@;
        if name.unicode_len() == 0 {
            return;
        }
        proof {
            lemma_key_index_from(s0.macros, name@, 0);
        }
        let newb = if append {
            match find_key(&self.macros, name) {
                Some(k) => {
                    let mut old = self.macros[k].1.clone();
                    proof {
                        assert(old@ =~= s0.macros[k as int].1);
                    }
                    let ghost o0 = old@;
                    let mut b = body;
                    old.append(&mut b);
                    proof {
                        assert(old@ =~= o0 + bv);
                    }
                    old
                },
                None => body,
            }
        } else {
            body
        };
        let ghost nv = newb@;
        table_insert(&mut self.macros, String::from_str(name), newb);
        proof {
            lemma_set_unique(s0.macros, name@, nv);
            assert(self@ =~= define_spec(s0, name@, bv, append));
        }
    }

    /// The text of a string, where it is defined.
    pub fn string_value(&self, name: &str) -> (r: Option<String>)
        ensures
            opt_view(r) == table_get(self@.strings, name@),
    {
        proof {
            lemma_key_index_from(self@.strings, name@, 0);
        }
        match find_key(&self.strings, name) {
            Some(k) => Some(self.strings[k].1.clone()),
            None => None,
        }
    }

    /// The lines of a macro, where it is defined.
    pub fn macro_body(&self, name: &str) -> (r: Option<Vec<String>>)
        ensures
            match r {
                Some(b) => table_get(self@.macros, name@) == Some(b@),
                None => table_get(self@.macros, name@) is None,
            },
    {
        proof {
            lemma_key_index_from(self@.macros, name@, 0);
        }
        match find_key(&self.macros, name) {
            Some(k) => {
                let b = self.macros[k].1.clone();
                proof {
                    assert(b@ =~= self@.macros[k as int].1);
                }
                Some(b)
            },
            None => None,
        }
    }

    /// Whether a string or a macro is defined under `name` (`.if d`).
    pub fn is_defined(&self, name: &str) -> (r: bool)
        ensures
            r == (table_get(self@.strings, name@) is Some || table_get(self@.macros, name@) is Some),
    {
        find_key(&self.strings, name).is_some() || find_key(&self.macros, name).is_some()
    }

    /// Whether a register is defined under `name` (`.if r`).
    pub fn has_register(&self, name: &str) -> (r: bool)
        ensures
            r == table_get(self@.registers, name@) is Some,
    {
        find_key(&self.registers, name).is_some()
    }
}


proof fn lemma_first_blank_after(key: Seq<char>, rest: Seq<char>, i: int)
    requires
        0 <= i <= key.len(),
        forall|q: int| 0 <= q < key.len() ==> key[q] != ' ' && key[q] != '\t',
    ensures
        first_blank_from(key + seq![' '] + rest, i) == Some(key.len() as int),
    decreases key.len() - i,
{
    if i < key.len() {
        lemma_first_blank_after(key, rest, i + 1);
    }
}

proof fn lemma_table_names()
    ensures
        !is_layout("ds"@) && is_table("ds"@),
        !is_layout("nr"@) && is_table("nr"@),
        !is_layout("rm"@) && is_table("rm"@),
        "ds"@ != "as"@,
        "nr"@ != "ds"@ && "nr"@ != "as"@,
        "rm"@ != "ds"@ && "rm"@ != "as"@ && "rm"@ != "nr"@ && "rm"@ != "rr"@,
{
    reveal_strlit("ad");
    reveal_strlit("als");
    reveal_strlit("as");
    reveal_strlit("ce");
    reveal_strlit("cu");
    reveal_strlit("da");
    reveal_strlit("di");
    reveal_strlit("ds");
    reveal_strlit("ex");
    reveal_strlit("fi");
    reveal_strlit("ft");
    reveal_strlit("hy");
    reveal_strlit("in");
    reveal_strlit("ll");
    reveal_strlit("ls");
    reveal_strlit("na");
    reveal_strlit("nf");
    reveal_strlit("nh");
    reveal_strlit("nr");
    reveal_strlit("ns");
    reveal_strlit("rm");
    reveal_strlit("rn");
    reveal_strlit("rr");
    reveal_strlit("rs");
    reveal_strlit("ss");
    reveal_strlit("ta");
    reveal_strlit("ti");
    reveal_strlit("ul");
    assert("ds"@[0] != "as"@[0]);
    assert("nr"@[0] != "ds"@[0]);
    assert("nr"@[0] != "as"@[0]);
    assert("rm"@[0] != "ds"@[0]);
    assert("rm"@[0] != "as"@[0]);
    assert("rm"@[0] != "nr"@[0]);
    assert("rm"@[1] != "rr"@[1]);
    assert("ds"@[0] != "ll"@[0]);
    assert("ds"@[0] != "in"@[0]);
    assert("ds"@[0] != "ti"@[0]);
    assert("ds"@[0] != "fi"@[0]);
    assert("ds"@[0] != "nf"@[0]);
    assert("ds"@[0] != "ad"@[0]);
    assert("ds"@[0] != "na"@[0]);
    assert("ds"@[0] != "ce"@[0]);
    assert("ds"@[0] != "ul"@[0]);
    assert("ds"@[0] != "cu"@[0]);
    assert("ds"@[0] != "ft"@[0]);
    assert("ds"@[0] != "ta"@[0]);
    assert("ds"@[0] != "ls"@[0]);
    assert("ds"@[1] != "di"@[1]);
    assert("ds"@[1] != "da"@[1]);
    assert("ds"@[0] != "hy"@[0]);
    assert("ds"@[0] != "nh"@[0]);
    assert("ds"@[0] != "ss"@[0]);
    assert("ds"@[0] != "ns"@[0]);
    assert("ds"@[0] != "rs"@[0]);
    assert("ds"@[0] != "ex"@[0]);
    assert("nr"@[0] != "ll"@[0]);
    assert("nr"@[0] != "in"@[0]);
    assert("nr"@[0] != "ti"@[0]);
    assert("nr"@[0] != "fi"@[0]);
    assert("nr"@[1] != "nf"@[1]);
    assert("nr"@[0] != "ad"@[0]);
    assert("nr"@[1] != "na"@[1]);
    assert("nr"@[0] != "ce"@[0]);
    assert("nr"@[0] != "ul"@[0]);
    assert("nr"@[0] != "cu"@[0]);
    assert("nr"@[0] != "ft"@[0]);
    assert("nr"@[0] != "ta"@[0]);
    assert("nr"@[0] != "ls"@[0]);
    assert("nr"@[0] != "di"@[0]);
    assert("nr"@[0] != "da"@[0]);
    assert("nr"@[0] != "hy"@[0]);
    assert("nr"@[1] != "nh"@[1]);
    assert("nr"@[0] != "ss"@[0]);
    assert("nr"@[1] != "ns"@[1]);
    assert("nr"@[0] != "rs"@[0]);
    assert("nr"@[0] != "ex"@[0]);
    assert("rm"@[0] != "ll"@[0]);
    assert("rm"@[0] != "in"@[0]);
    assert("rm"@[0] != "ti"@[0]);
    assert("rm"@[0] != "fi"@[0]);
    assert("rm"@[0] != "nf"@[0]);
    assert("rm"@[0] != "ad"@[0]);
    assert("rm"@[0] != "na"@[0]);
    assert("rm"@[0] != "ce"@[0]);
    assert("rm"@[0] != "ul"@[0]);
    assert("rm"@[0] != "cu"@[0]);
    assert("rm"@[0] != "ft"@[0]);
    assert("rm"@[0] != "ta"@[0]);
    assert("rm"@[0] != "ls"@[0]);
    assert("rm"@[0] != "di"@[0]);
    assert("rm"@[0] != "da"@[0]);
    assert("rm"@[0] != "hy"@[0]);
    assert("rm"@[0] != "nh"@[0]);
    assert("rm"@[0] != "ss"@[0]);
    assert("rm"@[0] != "ns"@[0]);
    assert("rm"@[1] != "rs"@[1]);
    assert("rm"@[0] != "ex"@[0]);
}

/// Whether a name is one of the registers the formatter computes.
pub open spec fn builtin_register(name: Seq<char>) -> bool {
    name == ".l"@ || name == ".i"@ || name == ".v"@ || name == ".V"@ || name == ".H"@ || name == ".u"@ || name == ".$"@
}

/// A string set by `.ds name value` reads back as the value; the names
/// stay unique.
pub proof fn lemma_ds_reads_back(
    s: RoffView,
    key: Seq<char>,
    value: Seq<char>,
    args: Seq<Seq<char>>,
    lengths: Seq<Option<i64>>,
)
    requires
        roff_wf(s),
        key.len() > 0,
        forall|q: int| 0 <= q < key.len() ==> key[q] != ' ' && key[q] != '\t',
        value.len() == 0 || value[0] != '"',
    ensures
        ({
            let s2 = request_spec(s, "ds"@, key + seq![' '] + value, args, lengths, None).0;
            table_get(s2.strings, key) == Some(value) && roff_wf(s2)
        }),
{
    reveal_strlit("ds");
    let tail = key + seq![' '] + value;
    lemma_first_blank_after(key, value, 0);
    assert(tail.take(key.len() as int) =~= key);
    assert(tail.skip(key.len() as int + 1) =~= value);
    lemma_table_names();
    lemma_set_unique(s.strings, key, value);
}

/// A register set by `.nr name value` to an evaluated value, without a
/// sign, reads back as that value (when the formatter does not compute
/// it itself).
pub proof fn lemma_nr_reads_back(s: RoffView, name: Seq<char>, vs: Seq<char>, tail: Seq<char>, v: i64)
    requires
        roff_wf(s),
        sign_of(vs) == 0,
        !builtin_register(name),
    ensures
        ({
            let s2 = request_spec(s, "nr"@, tail, seq![name, vs], seq![Some(v)], None).0;
            register_read_spec(s2, name, 0).1 == v && roff_wf(s2)
        }),
{
    reveal_strlit("nr");
    lemma_table_names();
    assert(arg(seq![name, vs], 2) == Seq::<char>::empty());
    lemma_set_unique(s.registers, name, v);
    let s2 = request_spec(s, "nr"@, tail, seq![name, vs], seq![Some(v)], None).0;
    match parse_i64_spec(Seq::<char>::empty()) {
        Some(st) => {
            lemma_set_unique(s.reg_steps, name, st);
        },
        None => {},
    }
}

/// `.rm` removes a string or macro: it is no longer defined.
pub proof fn lemma_rm_removes(s: RoffView, name: Seq<char>, tail: Seq<char>, lengths: Seq<Option<i64>>)
    requires
        roff_wf(s),
    ensures
        ({
            let s2 = request_spec(s, "rm"@, tail, seq![name], lengths, None).0;
            table_get(s2.strings, name) is None && table_get(s2.macros, name) is None && roff_wf(s2)
        }),
{
    reveal_strlit("rm");
    lemma_table_names();
    lemma_remove_unique(s.macros, name);
    lemma_remove_unique(s.strings, name);
    assert(seq![name].drop_first() =~= Seq::<Seq<char>>::empty());
    assert(seq![name][0] == name);
    assert(remove_all(table_remove(s.macros, name), Seq::<Seq<char>>::empty()) == table_remove(s.macros, name));
    assert(remove_all(table_remove(s.strings, name), Seq::<Seq<char>>::empty()) == table_remove(s.strings, name));
    assert(remove_all(s.macros, seq![name]) == table_remove(s.macros, name));
    assert(remove_all(s.strings, seq![name]) == table_remove(s.strings, name));
    lemma_remove_all_unique(s.macros, seq![name]);
    lemma_remove_all_unique(s.strings, seq![name]);
}


/// Where the white space at the start of `t[i..]` ends.
pub open spec fn white_end(t: Seq<char>, i: int) -> int
    decreases t.len() - i,
{
    if 0 <= i < t.len() && crate::join::is_white(t[i]) { white_end(t, i + 1) } else { i }
}

/// Where the blanks of `t[i..]` end.
pub open spec fn blanks_end(t: Seq<char>, i: int) -> int
    decreases t.len() - i,
{
    if 0 <= i < t.len() && t[i] == ' ' { blanks_end(t, i + 1) } else { i }
}

/// Where the `!` signs of `t[i..]` end.
pub open spec fn bangs_end(t: Seq<char>, i: int) -> int
    decreases t.len() - i,
{
    if 0 <= i < t.len() && t[i] == '!' { bangs_end(t, i + 1) } else { i }
}

/// Where a name (up to a blank or tab) of `t[i..]` ends.
pub open spec fn name_end(t: Seq<char>, i: int) -> int
    decreases t.len() - i,
{
    if 0 <= i < t.len() && t[i] != ' ' && t[i] != '\t' { name_end(t, i + 1) } else { i }
}

/// What a condition of `.if`/`.ie` tests.
#[derive(Debug, Clone)]
pub enum Condition {
    /// A fixed answer (`n`, `o`, `c` true; `t`, `v`, `e` false; `m`,
    /// `F`, `S` false).
    Fixed(bool),
    /// Whether a string or macro is defined (`d name`).
    Defined(String),
    /// Whether a register is defined (`r name`).
    Register(String),
    /// Whether two texts are equal (`'a'b'`).
    Equal(String, String),
    /// A numeric expression, true when positive; the body follows it.
    Numeric(String),
}

/// A condition as values.
pub enum ConditionView {
    Fixed(bool),
    Defined(Seq<char>),
    Register(Seq<char>),
    Equal(Seq<char>, Seq<char>),
    Numeric(Seq<char>),
}

impl View for Condition {
    type V = ConditionView;

    open spec fn view(&self) -> ConditionView {
        match self {
            Condition::Fixed(b) => ConditionView::Fixed(*b),
            Condition::Defined(n) => ConditionView::Defined(n@),
            Condition::Register(n) => ConditionView::Register(n@),
            Condition::Equal(a, b) => ConditionView::Equal(a@, b@),
            Condition::Numeric(e) => ConditionView::Numeric(e@),
        }
    }
}

/// Whether `t[i]` is absent or a blank or tab.
pub open spec fn space_at(t: Seq<char>, i: int) -> bool {
    i >= t.len() || t[i] == ' ' || t[i] == '\t'
}

/// The test of a condition starting at `i` (after its `!` signs), and
/// where the test ends.
pub open spec fn condition_test(t: Seq<char>, i: int) -> (ConditionView, int) {
    let c = t[i];
    if c == 'n' && space_at(t, i + 1) {
        (ConditionView::Fixed(true), i + 1)
    } else if (c == 't' || c == 'v' || c == 'e') && space_at(t, i + 1) {
        (ConditionView::Fixed(false), i + 1)
    } else if c == 'o' && space_at(t, i + 1) {
        (ConditionView::Fixed(true), i + 1)
    } else if c == 'c' && i + 1 < t.len() {
        let j = blanks_end(t, i + 1);
        let k = if j < t.len() && t[j] == '\\' {
            if j + 1 < t.len() && t[j + 1] == '(' { j + 4 } else { j + 2 }
        } else if j < t.len() {
            j + 1
        } else {
            j
        };
        (ConditionView::Fixed(true), k)
    } else if c == 'd' || c == 'r' || c == 'm' || c == 'F' || c == 'S' {
        let j = blanks_end(t, i + 1);
        let e = name_end(t, j);
        let name = t.subrange(j, e);
        (if c == 'd' { ConditionView::Defined(name) } else if c == 'r' { ConditionView::Register(name) } else { ConditionView::Fixed(false) }, e)
    } else if c == '\'' || c == '"' || c == '`' || c == '|' || c == '@' || c == '^' {
        let e1 = crate::patch::stop_at(t, c, i + 1);
        let e2 = crate::patch::stop_at(t, c, e1 + 1);
        (ConditionView::Equal(t.subrange(i + 1, e1), if e1 + 1 <= t.len() { t.subrange(e1 + 1, e2) } else { Seq::empty() }), if e2 < t.len() { e2 + 1 } else { e2 })
    } else {
        (ConditionView::Numeric(t.skip(i)), t.len() as int)
    }
}

/// A condition read from the text after `.if`: whether it is negated
/// (an odd number of `!`), what it tests, and the body after it; a
/// numeric test holds the text from its expression on, and the caller,
/// which evaluates the expression, takes the body from where it ends.
pub open spec fn condition_spec(tail: Seq<char>) -> Option<(bool, ConditionView, Seq<char>)> {
    let t = tail.skip(white_end(tail, 0));
    let i = bangs_end(t, 0);
    if i >= t.len() {
        None
    } else {
        let (test, k) = condition_test(t, i);
        let r = if k < t.len() { t.skip(k) } else { Seq::empty() };
        Some((i % 2 == 1, test, r.skip(white_end(r, 0))))
    }
}


/// Whether the test of a condition holds, `numeric` being whether a
/// numeric expression was positive.
pub open spec fn test_holds_spec(s: RoffView, test: ConditionView, numeric: bool) -> bool {
    match test {
        ConditionView::Fixed(b) => b,
        ConditionView::Defined(n) => table_get(s.strings, n) is Some || table_get(s.macros, n) is Some,
        ConditionView::Register(n) => table_get(s.registers, n) is Some,
        ConditionView::Equal(a, b) => a == b,
        ConditionView::Numeric(e) => numeric,
    }
}

fn white_end_of(t: &[char], i: usize) -> (r: usize)
    requires
        i <= t.len(),
    ensures
        r as int == white_end(t@, i as int),
        i <= r <= t.len(),
{
    let mut j = i;
    while j < t.len() && crate::join::is_white_char(t[j])
        invariant
            i <= j <= t.len(),
            white_end(t@, j as int) == white_end(t@, i as int),
        decreases t.len() - j,
    {
        j += 1;
    }
    j
}

fn blanks_end_of(t: &[char], i: usize) -> (r: usize)
    requires
        i <= t.len(),
    ensures
        r as int == blanks_end(t@, i as int),
        i <= r <= t.len(),
{
    let mut j = i;
    while j < t.len() && t[j] == ' '
        invariant
            i <= j <= t.len(),
            blanks_end(t@, j as int) == blanks_end(t@, i as int),
        decreases t.len() - j,
    {
        j += 1;
    }
    j
}

fn name_end_of(t: &[char], i: usize) -> (r: usize)
    requires
        i <= t.len(),
    ensures
        r as int == name_end(t@, i as int),
        i <= r <= t.len(),
{
    let mut j = i;
    while j < t.len() && t[j] != ' ' && t[j] != '\t'
        invariant
            i <= j <= t.len(),
            name_end(t@, j as int) == name_end(t@, i as int),
        decreases t.len() - j,
    {
        j += 1;
    }
    j
}

fn stop_at_of(t: &[char], c: char, i: usize) -> (r: usize)
    ensures
        r as int == crate::patch::stop_at(t@, c, i as int),
        r <= t.len(),
        i <= t.len() ==> i <= r,
{
    if i >= t.len() {
        return t.len();
    }
    let mut j = i;
    while j < t.len() && t[j] != c
        invariant
            i <= j <= t.len(),
            crate::patch::stop_at(t@, c, j as int) == crate::patch::stop_at(t@, c, i as int),
        decreases t.len() - j,
    {
        j += 1;
    }
    j
}

fn sub_string(t: &[char], from: usize, to: usize) -> (r: String)
    requires
        from <= to <= t.len(),
    ensures
        r@ == t@.subrange(from as int, to as int),
{
    string_of(&crate::text::slice_chars(t, from, to))
}

#[verifier::rlimit(40)]
fn condition_test_of(t: &[char], i: usize) -> (r: (Condition, usize))
    requires
        i < t.len(),
        t.len() + 4 <= usize::MAX,
    ensures
        r.0@ == condition_test(t@, i as int).0,
        r.1 as int == condition_test(t@, i as int).1,
{
    let c = t[i];
    let sp = i + 1 >= t.len() || t[i + 1] == ' ' || t[i + 1] == '\t';
    if c == 'n' && sp {
        (Condition::Fixed(true), i + 1)
    } else if (c == 't' || c == 'v' || c == 'e') && sp {
        (Condition::Fixed(false), i + 1)
    } else if c == 'o' && sp {
        (Condition::Fixed(true), i + 1)
    } else if c == 'c' && i + 1 < t.len() {
        let j = blanks_end_of(t, i + 1);
        let k = if j < t.len() && t[j] == '\\' {
            if j + 1 < t.len() && t[j + 1] == '(' {
                j + 4
            } else {
                j + 2
            }
        } else if j < t.len() {
            j + 1
        } else {
            j
        };
        (Condition::Fixed(true), k)
    } else if c == 'd' || c == 'r' || c == 'm' || c == 'F' || c == 'S' {
        let j = blanks_end_of(t, i + 1);
        let e = name_end_of(t, j);
        let name = sub_string(t, j, e);
        let test = if c == 'd' {
            Condition::Defined(name)
        } else if c == 'r' {
            Condition::Register(name)
        } else {
            Condition::Fixed(false)
        };
        (test, e)
    } else if c == '\'' || c == '"' || c == '`' || c == '|' || c == '@' || c == '^' {
        let e1 = stop_at_of(t, c, i + 1);
        proof {
            if i + 1 >= t.len() {
                assert(crate::patch::stop_at(t@, c, i + 1) == t@.len());
            }
        }
        let a = sub_string(t, i + 1, e1);
        let e2 = stop_at_of(t, c, e1 + 1);
        let b = if e1 + 1 <= t.len() {
            sub_string(t, e1 + 1, e2)
        } else {
            proof {
                assert(crate::patch::stop_at(t@, c, e1 + 1) == t@.len());
            }
            String::new()
        };
        proof {
            if !(e1 + 1 <= t.len()) {
                reveal_strlit("");
                assert(b@ =~= Seq::<char>::empty());
            }
        }
        (Condition::Equal(a, b), if e2 < t.len() {
            e2 + 1
        } else {
            e2
        })
    } else {
        (Condition::Numeric(sub_string(t, i, t.len())), t.len())
    }
}

/// Reads the condition of `.if`/`.ie` (see `condition_spec`).
pub fn parse_condition(tail: &str) -> (r: Option<(bool, Condition, String)>)
    requires
        tail@.len() + 4 <= usize::MAX,
    ensures
        match condition_spec(tail@) {
            Some((neg, test, body)) => r is Some && r->Some_0.0 == neg && r->Some_0.1@ == test && r->Some_0.2@ == body,
            None => r is None,
        },
{
    let v = chars_of(tail);
    let w = white_end_of(&v, 0);
    let t = crate::text::slice_chars(&v, w, v.len());
    proof {
        assert(t@ =~= tail@.skip(w as int));
    }
    let mut i: usize = 0;
    while i < t.len() && t[i] == '!'
        invariant
            i <= t@.len(),
            bangs_end(t@, i as int) == bangs_end(t@, 0),
        decreases t.len() - i,
    {
        i += 1;
    }
    if i >= t.len() {
        return None;
    }
    let (test, k) = condition_test_of(&t, i);
    let r = if k < t.len() {
        crate::text::slice_chars(&t, k, t.len())
    } else {
        Vec::new()
    };
    proof {
        if k < t.len() {
            assert(r@ =~= t@.skip(k as int));
        } else {
            assert(r@ =~= Seq::<char>::empty());
        }
    }
    let we = white_end_of(&r, 0);
    let body = sub_string(&r, we, r.len());
    proof {
        assert(body@ =~= r@.skip(we as int));
    }
    Some((i % 2 == 1, test, body))
}

impl Roff {
    /// Whether the test of a condition holds (see `test_holds_spec`).
    pub fn test_holds(&self, test: &Condition, numeric: bool) -> (r: bool)
        ensures
            r == test_holds_spec(self@, test@, numeric),
    {
        match test {
            Condition::Fixed(b) => *b,
            Condition::Defined(n) => self.is_defined(n.as_str()),
            Condition::Register(n) => self.has_register(n.as_str()),
            Condition::Equal(a, b) => str_eq(a.as_str(), b.as_str()),
            Condition::Numeric(e) => numeric,
        }
    }
}

} // verus!
