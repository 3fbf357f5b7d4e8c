//! The search of `grep`: the regular expression built from the patterns,
//! the lines that match, and the text printed for them.
use vstd::prelude::*;
use crate::text::{chars_of, concat, decimal, decimal_string, push_char, push_chars, starts_with_str, is_prefix};
use crate::find::expression::strings_view;
use crate::grep::options::{Options, SOptions};
use crate::grep::patterns::{bre_to_ere, convert_bre_to_ere};

verus! {

#[verifier::external_type_specification]
#[verifier::external_body]
pub struct ExRegex(regex::Regex);

/// The error that `regex::RegexBuilder` reports for the source, built with
/// the case flag and `multi_line(true)`, if any.
pub uninterp spec fn grep_regex_error_of(source: Seq<char>, case_insensitive: bool) -> Option<Seq<char>>;

/// Whether that expression finds a match in `text` (`Regex::is_match`).
pub uninterp spec fn grep_regex_match_of(source: Seq<char>, case_insensitive: bool, text: Seq<char>) -> bool;

/// The matches of that expression in `text`, in order, each with its byte
/// offset in `text` (`Regex::find_iter`).
pub uninterp spec fn grep_regex_finds_of(source: Seq<char>, case_insensitive: bool, text: Seq<char>) -> Seq<(int, Seq<char>)>;

/// `text` with every match of that expression wrapped in the escapes of
/// bold red (`Regex::replace_all` with `"\x1b[1;31m$0\x1b[0m"`).
pub uninterp spec fn grep_regex_colored_of(source: Seq<char>, case_insensitive: bool, text: Seq<char>) -> Seq<char>;

/// The meta characters of the regex syntax.
pub open spec fn is_regex_meta(c: char) -> bool {
    c == '\\' || c == '.' || c == '+' || c == '*' || c == '?' || c == '(' || c == ')' || c == '|' || c == '['
        || c == ']' || c == '{' || c == '}' || c == '^' || c == '$' || c == '#' || c == '&' || c == '-' || c == '~'
}

/// The text `regex::escape` gives: each character, after a backslash
/// where it is a meta character.
pub open spec fn regex_escape_of(s: Seq<char>) -> Seq<char>
    decreases s.len(),
{
    if s.len() == 0 {
        Seq::empty()
    } else {
        regex_escape_of(s.drop_last()) + if is_regex_meta(s.last()) {
            seq!['\\', s.last()]
        } else {
            seq![s.last()]
        }
    }
}

/// `regex::escape`.
#[verifier::external_body]
fn regex_escape(s: &str) -> (r: String)
    ensures
        r@ == regex_escape_of(s@),
{
    regex::escape(s)
}

/// A regular expression of `grep`, compiled once from its source with the
/// case flag; only `build` makes one.
pub struct GrepRegex {
    source: String,
    case_insensitive: bool,
    re: regex::Regex,
}

impl GrepRegex {
    /// The source it was compiled from.
    pub closed spec fn source(&self) -> Seq<char> {
        self.source@
    }

    /// Whether it ignores case.
    pub closed spec fn ignores_case(&self) -> bool {
        self.case_insensitive
    }

    /// `regex::RegexBuilder` with the case flag and `multi_line(true)`:
    /// the compiled expression, or the text of the error.
    #[verifier::external_body]
    fn build(source: String, case_insensitive: bool) -> (r: Result<GrepRegex, String>)
        ensures
            match r {
                Ok(g) => g.source() == source@ && g.ignores_case() == case_insensitive
                    && grep_regex_error_of(source@, case_insensitive) is None,
                Err(e) => grep_regex_error_of(source@, case_insensitive) == Some(e@),
            },
    {
        match regex::RegexBuilder::new(&source).case_insensitive(case_insensitive).multi_line(true).build() {
            Ok(re) => Ok(GrepRegex { source, case_insensitive, re }),
            Err(e) => Err(e.to_string()),
        }
    }

    /// `Regex::is_match`.
    #[verifier::external_body]
    pub(crate) fn is_match(&self, text: &str) -> (r: bool)
        ensures
            r == grep_regex_match_of(self.source(), self.ignores_case(), text@),
    {
        self.re.is_match(text)
    }

    /// `Regex::find_iter`: each match with its byte offset.
    #[verifier::external_body]
    pub(crate) fn find_all(&self, text: &str) -> (r: Vec<(usize, String)>)
        ensures
            r@.len() == grep_regex_finds_of(self.source(), self.ignores_case(), text@).len(),
            forall|k: int| 0 <= k < r@.len() ==> {
                let f = #[trigger] grep_regex_finds_of(self.source(), self.ignores_case(), text@)[k];
                r@[k].0 as int == f.0 && r@[k].1@ == f.1
            },
    {
        let mut v = Vec::new();
        for m in self.re.find_iter(text) {
            v.push((m.start(), m.as_str().to_string()));
        }
        v
    }

    /// `Regex::replace_all` with the escapes of bold red around `$0`.
    #[verifier::external_body]
    pub(crate) fn colorize(&self, text: &str) -> (r: String)
        ensures
            r@ == grep_regex_colored_of(self.source(), self.ignores_case(), text@),
    {
        self.re.replace_all(text, "\x1b[1;31m$0\x1b[0m").into_owned()
    }
}

/// A pattern as the expression takes it: escaped with `-F`, rewritten from
/// a basic expression unless `-E` or `-P`, then wrapped in `\b` with `-w`
/// and in `^` and `$` with `-x`.
pub open spec fn processed_pattern(p: Seq<char>, o: SOptions) -> Seq<char> {
    let base = if o.matching.fixed_strings {
        regex_escape_of(p)
    } else if !o.matching.extended_regexp && !o.matching.perl_regexp {
        bre_to_ere(p)
    } else {
        p
    };
    let worded = if o.matching.word_regexp { "\\b"@ + base + "\\b"@ } else { base };
    if o.matching.line_regexp { "^"@ + worded + "$"@ } else { worded }
}

/// What `-x` and `-w` do to a pattern: `-x` anchors it at both ends of
/// the line, `-w` puts a word boundary at both ends; a basic expression
/// (no `-E`, `-F` or `-P`) is read as `bre_to_ere` rewrites it, and with
/// `-E` the pattern is taken as it stands.
pub proof fn lemma_pattern_anchors(p: Seq<char>, o: SOptions)
    ensures
        o.matching.line_regexp ==> ({
            let r = processed_pattern(p, o);
            &&& r.len() >= 2
            &&& r[0] == '^'
            &&& r.last() == '$'
        }),
        o.matching.word_regexp && !o.matching.line_regexp ==> ({
            let r = processed_pattern(p, o);
            &&& r.len() >= 4
            &&& r[0] == '\\' && r[1] == 'b'
            &&& r[r.len() - 2] == '\\' && r.last() == 'b'
        }),
        !o.matching.line_regexp && !o.matching.word_regexp && !o.matching.fixed_strings ==>
            processed_pattern(p, o) == (if o.matching.extended_regexp || o.matching.perl_regexp { p } else { bre_to_ere(p) }),
{
    reveal_strlit("^");
    reveal_strlit("$");
    reveal_strlit("\\b");
}

/// A pattern as the expression takes it.
pub fn process_pattern(pattern: &str, opts: &Options) -> (r: String)
    ensures
        r@ == processed_pattern(pattern@, opts@),
{
    let base = if opts.matching.fixed_strings {
        regex_escape(pattern)
    } else if !opts.matching.extended_regexp && !opts.matching.perl_regexp {
        convert_bre_to_ere(pattern)
    } else {
        String::from_str(pattern)
    };
    let worded = if opts.matching.word_regexp {
        let mut s = String::from_str("\\b");
        s.append(base.as_str());
        s.append("\\b");
        s
    } else {
        base
    };
    if opts.matching.line_regexp {
        let mut s = String::from_str("^");
        s.append(worded.as_str());
        s.append("$");
        s
    } else {
        worded
    }
}

/// `parts` joined by `|`.
pub open spec fn joined_by_bar(parts: Seq<Seq<char>>) -> Seq<char>
    decreases parts.len(),
{
    if parts.len() == 0 {
        Seq::empty()
    } else if parts.len() == 1 {
        parts[0]
    } else {
        joined_by_bar(parts.drop_last()) + "|"@ + parts.last()
    }
}

/// The source of the expression: the one pattern, or the patterns as
/// alternatives inside one group.
pub open spec fn combined_source(patterns: Seq<Seq<char>>, o: SOptions) -> Seq<char> {
    let processed = patterns.map_values(|p: Seq<char>| processed_pattern(p, o));
    if patterns.len() == 1 {
        processed[0]
    } else {
        "("@ + joined_by_bar(processed) + ")"@
    }
}

/// Builds the expression from the patterns: the one pattern, or all of them
/// as alternatives; case is ignored with `-i`. An error of the regex crate
/// comes back as its text.
pub fn build_regex(patterns: &Vec<String>, opts: &Options) -> (r: Result<GrepRegex, String>)
    ensures
        match r {
            Ok(g) => g.source() == combined_source(strings_view(patterns@), opts@)
                && g.ignores_case() == opts@.matching.ignore_case
                && grep_regex_error_of(combined_source(strings_view(patterns@), opts@), opts@.matching.ignore_case) is None,
            Err(e) => grep_regex_error_of(combined_source(strings_view(patterns@), opts@), opts@.matching.ignore_case) == Some(e@),
        },
{
    let ghost ps = strings_view(patterns@);
    let ghost processed = ps.map_values(|p: Seq<char>| processed_pattern(p, opts@));
    let source = if patterns.len() == 1 {
        process_pattern(patterns[0].as_str(), opts)
    } else {
        let mut s = String::from_str("(");
        let ghost start = s@;
        let mut k: usize = 0;
        proof {
            reveal_strlit("(");
            assert(processed.take(0) =~= Seq::<Seq<char>>::empty());
        }
        while k < patterns.len()
            invariant
                k <= patterns.len(),
                ps == strings_view(patterns@),
                processed == ps.map_values(|p: Seq<char>| processed_pattern(p, opts@)),
                start == "("@,
                s@ == start + joined_by_bar(processed.take(k as int)),
            decreases patterns.len() - k,
        {
            let piece = process_pattern(patterns[k].as_str(), opts);
            proof {
                assert(processed.take(k + 1).drop_last() =~= processed.take(k as int));
                assert(processed.take(k + 1).last() == piece@);
            }
            if k > 0 {
                s.append("|");
            }
            s.append(piece.as_str());
            proof {
                if k == 0 {
                    assert(processed.take(1) =~= seq![piece@]);
                    assert(s@ =~= start + joined_by_bar(processed.take(1)));
                } else {
                    assert(s@ =~= start + joined_by_bar(processed.take(k + 1)));
                }
            }
            k += 1;
        }
        proof {
            assert(processed.take(patterns.len() as int) =~= processed);
        }
        s.append(")");
        s
    };
    GrepRegex::build(source, opts.matching.ignore_case)
}

/// What the printing of a line depends on: the options, the file name,
/// colour, and the expression (for `-o` and colour).
pub struct Printing {
    pub o: SOptions,
    pub filename: Option<Seq<char>>,
    pub use_color: bool,
    pub source: Seq<char>,
    pub ci: bool,
}

pub open spec fn printing_of(opts: &Options, filename: Option<&str>, use_color: bool, re: &GrepRegex) -> Printing {
    Printing { o: opts@, filename: opt_str(filename), use_color, source: re.source(), ci: re.ignores_case() }
}

/// `a + b`, or `usize::MAX` when that overflows.
pub open spec fn sat_add(a: int, b: int) -> int {
    if a + b <= usize::MAX { a + b } else { usize::MAX as int }
}

/// Text between the escapes that colour it, by the escape's code.
pub open spec fn magenta(s: Seq<char>) -> Seq<char> {
    "\x1b[35m"@ + s + "\x1b[0m"@
}

pub open spec fn green(s: Seq<char>) -> Seq<char> {
    "\x1b[32m"@ + s + "\x1b[0m"@
}

pub open spec fn bold_red(s: Seq<char>) -> Seq<char> {
    "\x1b[1;31m"@ + s + "\x1b[0m"@
}

/// What stands before a printed line: the file name, the line number and
/// the byte offset, each followed by `sep` (`:` for a match, `-` for
/// context; NUL after the name with `-Z`), then a tab with `-T`.
pub open spec fn line_prefix(o: SOptions, filename: Option<Seq<char>>, use_color: bool, line_num: nat, byte_off: nat, sep: char) -> Seq<char> {
    name_part(o, filename, use_color, sep)
        + number_part(o.report.line_number, use_color, line_num + 1, sep)
        + number_part(o.report.byte_offset, use_color, byte_off, sep)
        + (if o.report.initial_tab && (o.report.byte_offset || o.report.line_number || filename is Some) {
            seq!['\t']
        } else {
            Seq::empty()
        })
}

/// The file name and what follows it.
pub open spec fn name_part(o: SOptions, filename: Option<Seq<char>>, use_color: bool, sep: char) -> Seq<char> {
    match filename {
        Some(f) => (if use_color { magenta(f) } else { f }) + seq![if o.naming.null_output { '\0' } else { sep }],
        None => Seq::empty(),
    }
}

/// A number and `sep`, when `shown`.
pub open spec fn number_part(shown: bool, use_color: bool, n: nat, sep: char) -> Seq<char> {
    if shown {
        (if use_color { green(decimal(n)) } else { decimal(n) }) + seq![sep]
    } else {
        Seq::empty()
    }
}

/// The end of a printed record: NUL with `-z`, else newline.
pub open spec fn eol_of(o: SOptions) -> char {
    if o.naming.null_data { '\0' } else { '\n' }
}

/// The records of `-o`: each match from `finds[k..]` on its own, with the
/// prefix of its own byte offset.
pub open spec fn only_matching_text(st: Printing, line_num: nat, byte_off: nat, finds: Seq<(int, Seq<char>)>) -> Seq<char>
    decreases finds.len(),
{
    if finds.len() == 0 {
        Seq::empty()
    } else {
        let (start, m) = finds[0];
        line_prefix(st.o, st.filename, st.use_color, line_num, sat_add(byte_off as int, start) as nat, ':')
            + (if st.use_color { bold_red(m) } else { m }) + seq![eol_of(st.o)]
            + only_matching_text(st, line_num, byte_off, finds.drop_first())
    }
}

/// The text printed for line `line_num` (a match or context).
pub open spec fn line_text(st: Printing, line_num: nat, byte_off: nat, line: Seq<char>, is_match: bool) -> Seq<char> {
    let sep = if is_match { ':' } else { '-' };
    if st.o.naming.quiet {
        Seq::empty()
    } else if st.o.report.only_matching && is_match {
        only_matching_text(st, line_num, byte_off, grep_regex_finds_of(st.source, st.ci, line))
    } else if st.use_color && is_match {
        line_prefix(st.o, st.filename, st.use_color, line_num, byte_off, sep) + grep_regex_colored_of(st.source, st.ci, line) + seq![eol_of(st.o)]
    } else {
        line_prefix(st.o, st.filename, st.use_color, line_num, byte_off, sep) + line + seq![eol_of(st.o)]
    }
}

pub open spec fn opt_str(s: Option<&str>) -> Option<Seq<char>> {
    match s {
        Some(x) => Some(x@),
        None => None,
    }
}

/// Appends `s` between the escapes `open` and `\x1b[0m`, or bare.
fn push_colored(out: &mut String, open: &str, s: &str, use_color: bool)
    ensures
        final(out)@ == old(out)@ + (if use_color { open@ + s@ + "\x1b[0m"@ } else { s@ }),
{
    if use_color {
        out.append(open);
        out.append(s);
        out.append("\x1b[0m");
    } else {
        out.append(s);
    }
}

/// The file name and what follows it.
fn name_text(opts: &Options, filename: Option<&str>, use_color: bool, sep: char) -> (r: String)
    ensures
        r@ == name_part(opts@, opt_str(filename), use_color, sep),
{
    let mut s = String::new();
    match filename {
        Some(f) => {
            push_colored(&mut s, "\x1b[35m", f, use_color);
            push_char(&mut s, if opts.naming.null_output { '\0' } else { sep });
        },
        None => {},
    }
    s
}

/// A number and `sep`, when `shown`.
fn number_text(shown: bool, use_color: bool, n: u64, sep: char) -> (r: String)
    ensures
        r@ == number_part(shown, use_color, n as nat, sep),
{
    let mut s = String::new();
    if shown {
        let d = decimal_string(n);
        push_colored(&mut s, "\x1b[32m", d.as_str(), use_color);
        push_char(&mut s, sep);
    }
    s
}

/// What stands before a printed line.
fn build_prefix(opts: &Options, filename: Option<&str>, use_color: bool, line_num: usize, byte_off: usize, sep: char) -> (r: String)
    requires
        line_num < usize::MAX,
    ensures
        r@ == line_prefix(opts@, opt_str(filename), use_color, line_num as nat, byte_off as nat, sep),
{
    let mut prefix = name_text(opts, filename, use_color, sep);
    let a = number_text(opts.report.line_number, use_color, (line_num + 1) as u64, sep);
    prefix.append(a.as_str());
    let b = number_text(opts.report.byte_offset, use_color, byte_off as u64, sep);
    prefix.append(b.as_str());
    if opts.report.initial_tab && (opts.report.byte_offset || opts.report.line_number || filename.is_some()) {
        push_char(&mut prefix, '\t');
    }
    prefix
}

/// Appends the `-o` records of the matches `finds[k..]`.
#[verifier::rlimit(30)]
fn push_only_matching(out: &mut String, opts: &Options, filename: Option<&str>, use_color: bool, re: &GrepRegex,
    line_num: usize, byte_off: usize, finds: &Vec<(usize, String)>, line: &str)
    requires
        line_num < usize::MAX,
        finds@.len() == grep_regex_finds_of(re.source(), re.ignores_case(), line@).len(),
        forall|k: int| 0 <= k < finds@.len() ==> {
            let f = #[trigger] grep_regex_finds_of(re.source(), re.ignores_case(), line@)[k];
            finds@[k].0 as int == f.0 && finds@[k].1@ == f.1
        },
    ensures
        final(out)@ == old(out)@ + only_matching_text(printing_of(opts, filename, use_color, re), line_num as nat, byte_off as nat,
            grep_regex_finds_of(re.source(), re.ignores_case(), line@)),
{
    let ghost st = printing_of(opts, filename, use_color, re);
    let ghost all = grep_regex_finds_of(re.source(), re.ignores_case(), line@);
    let ghost start = out@;
    let eol = if opts.naming.null_data { '\0' } else { '\n' };
    let mut k: usize = 0;
    proof {
        assert(all.skip(0) =~= all);
    }
    while k < finds.len()
        invariant
            k <= finds@.len(),
            line_num < usize::MAX,
            st == printing_of(opts, filename, use_color, re),
            all == grep_regex_finds_of(re.source(), re.ignores_case(), line@),
            finds@.len() == all.len(),
            forall|j: int| 0 <= j < finds@.len() ==> {
                let f = #[trigger] all[j];
                finds@[j].0 as int == f.0 && finds@[j].1@ == f.1
            },
            eol == eol_of(opts@),
            start + only_matching_text(st, line_num as nat, byte_off as nat, all)
                == out@ + only_matching_text(st, line_num as nat, byte_off as nat, all.skip(k as int)),
        decreases finds@.len() - k,
    {
        let (mstart, ref m) = finds[k];
        let off = byte_off.saturating_add(mstart);
        let prefix = build_prefix(opts, filename, use_color, line_num, off, ':');
        let ghost before = out@;
        out.append(prefix.as_str());
        push_colored(out, "\x1b[1;31m", m.as_str(), use_color);
        push_char(out, eol);
        proof {
            let rest = all.skip(k as int);
            assert(rest[0] == all[k as int]);
            assert(rest.drop_first() =~= all.skip(k + 1));
            assert(out@ =~= before + (line_prefix(st.o, st.filename, st.use_color, line_num as nat, sat_add(byte_off as int, all[k as int].0) as nat, ':')
                + (if st.use_color { bold_red(all[k as int].1) } else { all[k as int].1 }) + seq![eol_of(st.o)]));
        }
        k += 1;
    }
    proof {
        assert(all.skip(0) =~= all);
        assert(all.skip(finds@.len() as int) =~= Seq::<(int, Seq<char>)>::empty());
    }
}

/// The text printed for one line, a match or context.
pub fn print_line(line_num: usize, byte_off: usize, line: &str, regex: &GrepRegex, opts: &Options,
    filename: Option<&str>, is_match: bool, use_color: bool) -> (r: String)
    requires
        line_num < usize::MAX,
    ensures
        r@ == line_text(printing_of(opts, filename, use_color, regex), line_num as nat, byte_off as nat, line@, is_match),
{
    let mut out = String::new();
    if opts.naming.quiet {
        return out;
    }
    let eol = if opts.naming.null_data { '\0' } else { '\n' };
    let sep = if is_match { ':' } else { '-' };
    if opts.report.only_matching && is_match {
        let finds = regex.find_all(line);
        push_only_matching(&mut out, opts, filename, use_color, regex, line_num, byte_off, &finds, line);
    } else if use_color && is_match {
        let prefix = build_prefix(opts, filename, use_color, line_num, byte_off, sep);
        out.append(prefix.as_str());
        let colored = regex.colorize(line);
        out.append(colored.as_str());
        push_char(&mut out, eol);
    } else {
        let prefix = build_prefix(opts, filename, use_color, line_num, byte_off, sep);
        out.append(prefix.as_str());
        out.append(line);
        push_char(&mut out, eol);
    }
    out
}

/// The lines of one input and how they are printed.
pub struct Setup {
    pub pr: Printing,
    pub lines: Seq<Seq<char>>,
    pub offsets: Seq<usize>,
    pub before: nat,
    pub after: nat,
    pub sep_pending: bool,
}

/// Whether a line is selected: it matches, or with `-v` it does not.
pub open spec fn selected(pr: Printing, line: Seq<char>) -> bool {
    grep_regex_match_of(pr.source, pr.ci, line) != pr.o.matching.invert_match
}

/// How many of the flags are set.
pub open spec fn count_true(m: Seq<bool>) -> nat
    decreases m.len(),
{
    if m.len() == 0 {
        0
    } else {
        count_true(m.drop_last()) + (if m.last() { 1nat } else { 0nat })
    }
}

/// How far line `i` is from the next selected line at or after it, or
/// `usize::MAX` when none follows.
pub open spec fn next_match_dist(m: Seq<bool>, i: int) -> int
    decreases m.len() - i,
{
    if i >= m.len() || i < 0 {
        usize::MAX as int
    } else if m[i] {
        0
    } else {
        let d = next_match_dist(m, i + 1);
        if d == usize::MAX as int { d } else { d + 1 }
    }
}

/// Where the printing of lines stands: matches printed, context lines
/// still owed after the last match, and the last line printed.
pub struct Walk {
    pub count: nat,
    pub pending: nat,
    pub last: Option<nat>,
}

/// The group separator and its newline, before a group that does not
/// follow the last printed line.
pub open spec fn separator_text(st: Setup, i: int, w: Walk, will_print: bool) -> Seq<char> {
    let gap = match w.last {
        Some(l) => i > l + 1,
        None => st.sep_pending,
    };
    if will_print && (st.before > 0 || st.after > 0) && gap && !st.pr.o.naming.quiet {
        match st.pr.o.texts.group_separator {
            Some(g) => g.push('\n'),
            None => Seq::empty(),
        }
    } else {
        Seq::empty()
    }
}

/// What line `i` does: `None` when the `-m` limit stops the output there,
/// else the text it prints (maybe nothing) and the state after it.
pub open spec fn step_spec(st: Setup, m: Seq<bool>, i: int, w: Walk) -> Option<(Seq<char>, Walk)> {
    let is_m = m[i];
    let d = next_match_dist(m, i);
    let in_before = !is_m && d != usize::MAX as int && d <= st.before;
    let in_after = match w.last {
        Some(l) => w.pending > 0 && i > l,
        None => false,
    };
    let ctx = in_before || in_after;
    let at_limit = match st.pr.o.limits.max_count {
        Some(mx) => w.count >= mx,
        None => false,
    };
    if is_m && at_limit {
        None
    } else {
        let sep = separator_text(st, i, w, is_m || ctx);
        let off: nat = if i < st.offsets.len() { st.offsets[i] as nat } else { 0 };
        if is_m {
            Some((sep + line_text(st.pr, i as nat, off, st.lines[i], true),
                Walk { count: w.count + 1, pending: st.after, last: Some(i as nat) }))
        } else if ctx {
            let pending: nat = if in_after && w.pending > 0 { (w.pending - 1) as nat } else { w.pending };
            Some((sep + line_text(st.pr, i as nat, off, st.lines[i], false),
                Walk { count: w.count, pending: pending, last: Some(i as nat) }))
        } else {
            Some((Seq::empty(), Walk { pending: 0, ..w }))
        }
    }
}

/// What the lines from `i` on print, and the count of matches in the end:
/// each selected line until the `-m` limit, the `-B` lines before a
/// selected line and the `-A` lines after one, with a separator between
/// groups.
pub open spec fn walk_from(st: Setup, m: Seq<bool>, i: int, w: Walk) -> (Seq<char>, nat)
    decreases st.lines.len() - i,
{
    if i >= st.lines.len() || i < 0 {
        (Seq::empty(), w.count)
    } else {
        match step_spec(st, m, i, w) {
            None => (Seq::empty(), w.count),
            Some((t, w2)) => {
                let rest = walk_from(st, m, i + 1, w2);
                (t + rest.0, rest.1)
            },
        }
    }
}

/// The line that names a file for `-l` and `-L`.
pub open spec fn name_record(pr: Printing) -> Seq<char> {
    match pr.filename {
        Some(f) => if pr.o.naming.quiet {
            Seq::empty()
        } else {
            f.push(if pr.o.naming.null_output { '\0' } else { '\n' })
        },
        None => Seq::empty(),
    }
}

/// The line of `-c`.
pub open spec fn count_record(pr: Printing, c: nat) -> Seq<char> {
    if pr.o.naming.quiet {
        Seq::empty()
    } else {
        match pr.filename {
            Some(f) => if pr.o.naming.null_output {
                f.push('\0') + decimal(c).push('\n')
            } else {
                f.push(':') + decimal(c).push('\n')
            },
            None => decimal(c).push('\n'),
        }
    }
}

/// What `grep` prints for the lines of one input, and the number it counts:
/// with `-l` or `-L` the file's name, with `-c` the count of selected lines
/// (at most the `-m` limit), else the selected lines with their context.
pub open spec fn grep_lines_spec(st: Setup) -> (Seq<char>, nat) {
    let m = st.lines.map_values(|l: Seq<char>| selected(st.pr, l));
    let total = count_true(m);
    let o = st.pr.o;
    if o.report.files_with_matches {
        if total > 0 { (name_record(st.pr), 1) } else { (Seq::empty(), 0) }
    } else if o.report.files_without_match {
        if total == 0 { (name_record(st.pr), 1) } else { (Seq::empty(), 0) }
    } else if o.report.count {
        let c = match o.limits.max_count {
            Some(mx) => if total < mx { total } else { mx as nat },
            None => total,
        };
        (count_record(st.pr, c), c)
    } else {
        walk_from(st, m, 0, Walk { count: 0, pending: 0, last: None })
    }
}

/// The same search with `-v` turned the other way.
pub open spec fn inverted(st: Setup) -> Setup {
    Setup {
        pr: Printing {
            o: SOptions { matching: crate::grep::options::MatchFlags { invert_match: !st.pr.o.matching.invert_match, ..st.pr.o.matching }, ..st.pr.o },
            ..st.pr
        },
        ..st
    }
}

proof fn lemma_counts_complement(l: Seq<Seq<char>>, pr: Printing, pr2: Printing)
    requires
        pr2.source == pr.source,
        pr2.ci == pr.ci,
        pr2.o.matching.invert_match == !pr.o.matching.invert_match,
    ensures
        count_true(l.map_values(|x: Seq<char>| selected(pr, x))) + count_true(l.map_values(|x: Seq<char>| selected(pr2, x))) == l.len(),
    decreases l.len(),
{
    if l.len() > 0 {
        let d = l.drop_last();
        lemma_counts_complement(d, pr, pr2);
        assert(l.map_values(|x: Seq<char>| selected(pr, x)).drop_last() =~= d.map_values(|x: Seq<char>| selected(pr, x)));
        assert(l.map_values(|x: Seq<char>| selected(pr2, x)).drop_last() =~= d.map_values(|x: Seq<char>| selected(pr2, x)));
    }
}

/// `grep -c` and `grep -c -v` (with no `-m`, `-l` or `-L`) count every
/// line once between them: a line is selected by exactly one of the two.
pub proof fn lemma_invert_complements(st: Setup)
    requires
        st.pr.o.report.count,
        !st.pr.o.report.files_with_matches,
        !st.pr.o.report.files_without_match,
        st.pr.o.limits.max_count is None,
    ensures
        grep_lines_spec(st).1 + grep_lines_spec(inverted(st)).1 == st.lines.len(),
{
    lemma_counts_complement(st.lines, st.pr, inverted(st).pr);
}

pub open spec fn setup_of(lines: &[String], offsets: &[usize], regex: &GrepRegex, opts: &Options, filename: Option<&str>,
    before_ctx: usize, after_ctx: usize, file_sep_pending: bool, use_color: bool) -> Setup {
    Setup {
        pr: printing_of(opts, filename, use_color, regex),
        lines: strings_view(lines@),
        offsets: offsets@,
        before: before_ctx as nat,
        after: after_ctx as nat,
        sep_pending: file_sep_pending,
    }
}

/// Which lines are selected, and how many.
fn selected_lines(lines: &[String], regex: &GrepRegex, opts: &Options) -> (r: (Vec<bool>, usize))
    ensures
        r.0@ == strings_view(lines@).map_values(|l: Seq<char>| selected(printing_of(opts, None, false, regex), l)),
        r.1 == count_true(r.0@),
{
    let ghost pr = printing_of(opts, None, false, regex);
    let ghost sl = strings_view(lines@);
    let mut m: Vec<bool> = Vec::new();
    let mut total: usize = 0;
    let mut i: usize = 0;
    while i < lines.len()
        invariant
            i <= lines.len(),
            pr == printing_of(opts, None, false, regex),
            sl == strings_view(lines@),
            m@ == sl.take(i as int).map_values(|l: Seq<char>| selected(pr, l)),
            total == count_true(m@),
            total <= i,
        decreases lines.len() - i,
    {
        let hit = regex.is_match(lines[i].as_str());
        let sel = hit != opts.matching.invert_match;
        let ghost before = m@;
        m.push(sel);
        proof {
            assert(sl.take(i + 1).map_values(|l: Seq<char>| selected(pr, l))
                =~= sl.take(i as int).map_values(|l: Seq<char>| selected(pr, l)).push(sel));
            assert(m@.drop_last() =~= before);
        }
        if sel {
            total += 1;
        }
        i += 1;
    }
    proof {
        assert(sl.take(lines.len() as int) =~= sl);
    }
    (m, total)
}

/// For each line, how far the next selected line is (`usize::MAX` when
/// none follows).
fn match_distances(m: &Vec<bool>) -> (r: Vec<usize>)
    ensures
        r@.len() == m@.len(),
        forall|i: int| 0 <= i < m@.len() ==> r@[i] as int == #[trigger] next_match_dist(m@, i),
{
    let n = m.len();
    let mut r: Vec<usize> = Vec::new();
    let mut k: usize = 0;
    while k < n
        invariant
            k <= n,
            n == m@.len(),
            r@.len() == k,
        decreases n - k,
    {
        r.push(usize::MAX);
        k += 1;
    }
    let mut dist: usize = usize::MAX;
    let mut i: usize = n;
    while i > 0
        invariant
            i <= n,
            n == m@.len(),
            r@.len() == n,
            dist as int == next_match_dist(m@, i as int),
            dist == usize::MAX || dist <= n - i,
            forall|j: int| i <= j < n ==> r@[j] as int == #[trigger] next_match_dist(m@, j),
        decreases i,
    {
        i -= 1;
        if m[i] {
            dist = 0;
        } else if dist != usize::MAX {
            dist = dist + 1;
        }
        r.set(i, dist);
    }
    r
}

pub open spec fn walk_view(count: usize, pending: usize, last: Option<usize>) -> Walk {
    Walk {
        count: count as nat,
        pending: pending as nat,
        last: match last {
            Some(l) => Some(l as nat),
            None => None,
        },
    }
}

/// The separator text before line `i`.
fn separator_before(opts: &Options, i: usize, last: Option<usize>, sep_pending: bool, will_print: bool,
    before_ctx: usize, after_ctx: usize, Ghost(st): Ghost<Setup>, Ghost(w): Ghost<Walk>) -> (r: String)
    requires
        st.pr.o == opts@,
        st.before == before_ctx,
        st.after == after_ctx,
        st.sep_pending == sep_pending,
        w.last == match last {
            Some(l) => Some(l as nat),
            None => None::<nat>,
        },
    ensures
        r@ == separator_text(st, i as int, w, will_print),
{
    let gap = match last {
        Some(l) => i > l && i - l > 1,
        None => sep_pending,
    };
    let mut r = String::new();
    if will_print && (before_ctx > 0 || after_ctx > 0) && gap && !opts.naming.quiet {
        match &opts.texts.group_separator {
            Some(g) => {
                r.append(g.as_str());
                push_char(&mut r, '\n');
            },
            None => {},
        }
    }
    r
}

/// What line `i` does: `None` at the `-m` limit, else the text it prints
/// and the new count, pending context and last printed line.
fn walk_step(lines: &[String], offsets: &[usize], regex: &GrepRegex, opts: &Options, filename: Option<&str>,
    before_ctx: usize, after_ctx: usize, file_sep_pending: bool, use_color: bool,
    m: &Vec<bool>, dist: &Vec<usize>, i: usize, count: usize, pending: usize, last: Option<usize>)
    -> (r: Option<(String, usize, usize, Option<usize>)>)
    requires
        i < lines.len(),
        lines.len() < usize::MAX,
        count <= i,
        m@.len() == lines.len(),
        dist@.len() == lines.len(),
        dist@[i as int] as int == next_match_dist(m@, i as int),
    ensures
        ({
            let st = setup_of(lines, offsets, regex, opts, filename, before_ctx, after_ctx, file_sep_pending, use_color);
            match step_spec(st, m@, i as int, walk_view(count, pending, last)) {
                None => r is None,
                Some((t, w2)) => match r {
                    Some((text, c2, p2, l2)) => text@ == t && walk_view(c2, p2, l2) == w2 && c2 <= i + 1,
                    None => false,
                },
            }
        }),
{
    let ghost st = setup_of(lines, offsets, regex, opts, filename, before_ctx, after_ctx, file_sep_pending, use_color);
    let ghost w = walk_view(count, pending, last);
    let is_m = m[i];
    let d = dist[i];
    let in_before = !is_m && d != usize::MAX && d <= before_ctx;
    let in_after = match last {
        Some(l) => pending > 0 && i > l,
        None => false,
    };
    let ctx = in_before || in_after;
    if is_m {
        match opts.limits.max_count {
            Some(mx) => {
                if count >= mx {
                    return None;
                }
            },
            None => {},
        }
    }
    let sep = separator_before(opts, i, last, file_sep_pending, is_m || ctx, before_ctx, after_ctx, Ghost(st), Ghost(w));
    let off: usize = if i < offsets.len() { offsets[i] } else { 0 };
    proof {
        assert(st.lines[i as int] == lines@[i as int]@);
        assert(off as nat == (if i < st.offsets.len() { st.offsets[i as int] as nat } else { 0 }));
    }
    if is_m {
        let text = print_line(i, off, lines[i].as_str(), regex, opts, filename, true, use_color);
        let mut out = sep;
        out.append(text.as_str());
        proof {
            assert(step_spec(st, m@, i as int, w) is Some);
            assert(step_spec(st, m@, i as int, w).unwrap().1 == walk_view((count + 1) as usize, after_ctx, Some(i)));
            assert(step_spec(st, m@, i as int, w).unwrap().0 == out@);
        }
        let res = Some((out, count + 1, after_ctx, Some(i)));
        proof {
            assert(match step_spec(st, m@, i as int, walk_view(count, pending, last)) {
                None => res is None,
                Some((t, w2)) => match res {
                    Some((text, c2, p2, l2)) => text@ == t && walk_view(c2, p2, l2) == w2,
                    None => false,
                },
            });
        }
        res
    } else if ctx {
        let text = print_line(i, off, lines[i].as_str(), regex, opts, filename, false, use_color);
        let mut out = sep;
        out.append(text.as_str());
        let p2 = if in_after && pending > 0 { pending - 1 } else { pending };
        proof {
            assert(step_spec(st, m@, i as int, w) is Some);
            assert(step_spec(st, m@, i as int, w).unwrap().1 == walk_view(count, p2, Some(i)));
            assert(step_spec(st, m@, i as int, w).unwrap().0 == out@);
        }
        Some((out, count, p2, Some(i)))
    } else {
        proof {
            assert(step_spec(st, m@, i as int, w) is Some);
            assert(step_spec(st, m@, i as int, w).unwrap().1 == walk_view(count, 0, last));
        }
        Some((String::new(), count, 0, last))
    }
}

/// Prints the lines with their context, from the selected flags `m` and
/// the distances `dist` to the next selected line.
fn walk_lines(lines: &[String], offsets: &[usize], regex: &GrepRegex, opts: &Options, filename: Option<&str>,
    before_ctx: usize, after_ctx: usize, file_sep_pending: bool, use_color: bool,
    m: &Vec<bool>, dist: &Vec<usize>) -> (r: (usize, String))
    requires
        m@.len() == lines.len(),
        dist@.len() == lines.len(),
        forall|i: int| 0 <= i < m@.len() ==> dist@[i] as int == #[trigger] next_match_dist(m@, i),
        lines.len() < usize::MAX,
    ensures
        ({
            let st = setup_of(lines, offsets, regex, opts, filename, before_ctx, after_ctx, file_sep_pending, use_color);
            let res = walk_from(st, m@, 0, Walk { count: 0, pending: 0, last: None });
            r.1@ == res.0 && r.0 as nat == res.1
        }),
{
    let ghost st = setup_of(lines, offsets, regex, opts, filename, before_ctx, after_ctx, file_sep_pending, use_color);
    let ghost whole = walk_from(st, m@, 0, Walk { count: 0, pending: 0, last: None });
    let mut out = String::new();
    let mut count: usize = 0;
    let mut pending: usize = 0;
    let mut last: Option<usize> = None;
    let mut i: usize = 0;
    proof {
        assert(out@ + whole.0 =~= whole.0);
    }
    while i < lines.len()
        invariant
            i <= lines.len(),
            lines.len() < usize::MAX,
            count <= i,
            m@.len() == lines.len(),
            dist@.len() == lines.len(),
            forall|j: int| 0 <= j < m@.len() ==> dist@[j] as int == #[trigger] next_match_dist(m@, j),
            st == setup_of(lines, offsets, regex, opts, filename, before_ctx, after_ctx, file_sep_pending, use_color),
            whole == walk_from(st, m@, 0, Walk { count: 0, pending: 0, last: None }),
            ({
                let rest = walk_from(st, m@, i as int, walk_view(count, pending, last));
                whole.0 == out@ + rest.0 && whole.1 == rest.1
            }),
        decreases lines.len() - i,
    {
        match walk_step(lines, offsets, regex, opts, filename, before_ctx, after_ctx, file_sep_pending, use_color,
            m, dist, i, count, pending, last) {
            None => {
                proof {
                    assert(out@ + Seq::<char>::empty() =~= out@);
                }
                return (count, out);
            },
            Some((text, c2, p2, l2)) => {
                let ghost before_out = out@;
                out.append(text.as_str());
                proof {
                    let rest2 = walk_from(st, m@, i + 1, walk_view(c2, p2, l2));
                    assert(before_out + (text@ + rest2.0) =~= out@ + rest2.0);
                }
                count = c2;
                pending = p2;
                last = l2;
            },
        }
        i += 1;
    }
    proof {
        assert(out@ + Seq::<char>::empty() =~= out@);
    }
    (count, out)
}

/// The record of `-l` and `-L`.
fn name_record_text(opts: &Options, filename: Option<&str>) -> (r: String)
    ensures
        r@ == name_record(printing_of_opts(opts, filename)),
{
    let mut r = String::new();
    match filename {
        Some(f) => {
            if !opts.naming.quiet {
                r.append(f);
                push_char(&mut r, if opts.naming.null_output { '\0' } else { '\n' });
            }
        },
        None => {},
    }
    r
}

/// The printing setting as far as the name and count records read it.
pub open spec fn printing_of_opts(opts: &Options, filename: Option<&str>) -> Printing {
    Printing { o: opts@, filename: opt_str(filename), use_color: false, source: Seq::empty(), ci: false }
}

/// The record of `-c`.
fn count_record_text(opts: &Options, filename: Option<&str>, c: usize) -> (r: String)
    ensures
        r@ == count_record(printing_of_opts(opts, filename), c as nat),
{
    let mut r = String::new();
    if !opts.naming.quiet {
        let d = decimal_string(c as u64);
        match filename {
            Some(f) => {
                r.append(f);
                push_char(&mut r, if opts.naming.null_output { '\0' } else { ':' });
                r.append(d.as_str());
                push_char(&mut r, '\n');
            },
            None => {
                r.append(d.as_str());
                push_char(&mut r, '\n');
            },
        }
    }
    r
}

/// What `grep` prints for the lines of one input (`lines`, starting at the
/// byte offsets `offsets`), and the number it counts: with `-l` or `-L` the
/// file's name, with `-c` the count of selected lines (at most the `-m`
/// limit), else the selected lines with `before_ctx` and `after_ctx` lines
/// of context; `file_sep_pending` asks for a separator before the first
/// group.
pub fn grep_lines(lines: &[String], offsets: &[usize], regex: &GrepRegex, opts: &Options, filename: Option<&str>,
    before_ctx: usize, after_ctx: usize, file_sep_pending: bool, use_color: bool) -> (r: (usize, String))
    requires
        lines.len() < usize::MAX,
    ensures
        ({
            let res = grep_lines_spec(setup_of(lines, offsets, regex, opts, filename, before_ctx, after_ctx, file_sep_pending, use_color));
            r.1@ == res.0 && r.0 as nat == res.1
        }),
{
    let ghost st = setup_of(lines, offsets, regex, opts, filename, before_ctx, after_ctx, file_sep_pending, use_color);
    let (m, total) = selected_lines(lines, regex, opts);
    proof {
        assert(m@ =~= st.lines.map_values(|l: Seq<char>| selected(st.pr, l)));
    }
    if opts.report.files_with_matches {
        if total > 0 {
            return (1, name_record_text(opts, filename));
        }
        return (0, String::new());
    }
    if opts.report.files_without_match {
        if total == 0 {
            return (1, name_record_text(opts, filename));
        }
        return (0, String::new());
    }
    if opts.report.count {
        let c = match opts.limits.max_count {
            Some(mx) => if total < mx { total } else { mx },
            None => total,
        };
        return (c, count_record_text(opts, filename, c));
    }
    let dist = match_distances(&m);
    walk_lines(lines, offsets, regex, opts, filename, before_ctx, after_ctx, file_sep_pending, use_color, &m, &dist)
}

/// What `grep` makes of a file that looks binary: `None` when it is read
/// as text (`-a`, or not binary, or with `-z`); else the count it gives and
/// the text it prints: nothing with `--binary-files=without-match`, else
/// one line when the decoded content matches.
pub open spec fn binary_result(bytes: Seq<u8>, source: Seq<char>, ci: bool, o: SOptions, display: Seq<char>) -> Option<(nat, Seq<char>)> {
    if !o.naming.null_data && crate::grep::lines::looks_binary(bytes) {
        match o.limits.binary_files {
            crate::grep::options::BinaryMode::Without => Some((0, Seq::empty())),
            crate::grep::options::BinaryMode::Binary => {
                let content = crate::grep::lines::decoded_of(crate::grep::lines::detected_encoding(bytes), bytes);
                if grep_regex_match_of(source, ci, content) {
                    Some((1, if o.naming.quiet { Seq::empty() } else { "Binary file "@ + display + " matches\n"@ }))
                } else {
                    Some((0, Seq::empty()))
                }
            },
            crate::grep::options::BinaryMode::Text => None,
        }
    } else {
        None
    }
}

/// What `grep` makes of a file that may be binary (`display` being the
/// name it prints).
pub fn binary_file_result(bytes: &[u8], regex: &GrepRegex, opts: &Options, display: &str) -> (r: Option<(usize, String)>)
    requires
        bytes.len() <= i32::MAX,
    ensures
        match binary_result(bytes@, regex.source(), regex.ignores_case(), opts@, display@) {
            Some((c, t)) => match r {
                Some((c2, t2)) => c2 == c && t2@ == t,
                None => false,
            },
            None => r is None,
        },
{
    if !opts.naming.null_data && crate::grep::lines::is_binary(bytes) {
        match opts.limits.binary_files {
            crate::grep::options::BinaryMode::Without => Some((0, String::new())),
            crate::grep::options::BinaryMode::Binary => {
                let content = crate::grep::lines::decode_to_utf8(bytes);
                if regex.is_match(content.as_str()) {
                    let text = if opts.naming.quiet {
                        String::new()
                    } else {
                        crate::text::join3("Binary file ", display, " matches\n")
                    };
                    Some((1, text))
                } else {
                    Some((0, String::new()))
                }
            },
            crate::grep::options::BinaryMode::Text => None,
        }
    } else {
        None
    }
}

/// The exit status: 0 when something matched (with `-q` even after an
/// error), 2 after an error, else 1.
pub fn exit_status(quiet: bool, matches: usize, had_error: bool) -> (r: i32)
    ensures
        r == (if quiet && matches > 0 { 0i32 } else if had_error { 2i32 } else if matches > 0 { 0i32 } else { 1i32 }),
{
    if quiet && matches > 0 {
        0
    } else if had_error {
        2
    } else if matches > 0 {
        0
    } else {
        1
    }
}

} // verus!
