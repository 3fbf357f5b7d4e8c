//! The options of `grep` and the reading of its command line.
use vstd::prelude::*;
use crate::text::{chars_of, chars_eq_str, str_eq, string_of, wrap_chars, prefixed, concat, slice_chars, starts_with_str, is_prefix,
    parse_usize, parse_int_spec, join3, find_char, first_index_of, lemma_first_index_of};
use crate::find::expression::strings_view;

verus! {

/// How matches are coloured.
#[derive(Debug, Clone, Copy, PartialEq, Eq, Structural)]
pub enum ColorMode {
    Auto,
    Always,
    Never,
}

/// How files that look binary are treated.
#[derive(Debug, Clone, Copy, PartialEq, Eq, Structural)]
pub enum BinaryMode {
    Binary,
    Text,
    Without,
}

/// What is done with a directory named on the command line.
#[derive(Debug, Clone, Copy, PartialEq, Eq, Structural)]
pub enum DirAction {
    Read,
    Skip,
}

/// How a pattern matches.
#[derive(Debug, Clone, Copy, PartialEq, Eq, Structural)]
pub struct MatchFlags {
    pub ignore_case: bool,
    pub invert_match: bool,
    pub extended_regexp: bool,
    pub fixed_strings: bool,
    pub basic_regexp: bool,
    pub line_regexp: bool,
    pub word_regexp: bool,
    pub perl_regexp: bool,
}

/// What is reported of a match.
#[derive(Debug, Clone, Copy, PartialEq, Eq, Structural)]
pub struct ReportFlags {
    pub count: bool,
    pub line_number: bool,
    pub files_with_matches: bool,
    pub files_without_match: bool,
    pub only_matching: bool,
    pub byte_offset: bool,
    pub initial_tab: bool,
}

/// How messages and file names are given.
#[derive(Debug, Clone, Copy, PartialEq, Eq, Structural)]
pub struct NamingFlags {
    pub quiet: bool,
    pub no_messages: bool,
    pub with_filename: bool,
    pub no_filename: bool,
    pub null_output: bool,
    pub null_data: bool,
}

/// Which files are read, and what is asked of the program.
#[derive(Debug, Clone, Copy, PartialEq, Eq, Structural)]
pub struct FileFlags {
    pub recursive: bool,
    pub dereference_recursive: bool,
    pub text: bool,
    pub strip_dot_prefix: bool,
    pub show_help: bool,
    pub show_version: bool,
}

/// Counts, context and modes.
#[derive(Debug, Clone, Copy, PartialEq, Eq, Structural)]
pub struct Limits {
    pub max_count: Option<usize>,
    pub after_context: usize,
    pub before_context: usize,
    pub context: usize,
    pub color: ColorMode,
    pub directories: DirAction,
    pub binary_files: BinaryMode,
}

/// The patterns, the lists of globs and the texts of the options.
#[derive(Debug)]
pub struct Texts {
    pub patterns: Vec<String>,
    pub pattern_file: Option<String>,
    pub include_patterns: Vec<String>,
    pub exclude_patterns: Vec<String>,
    pub exclude_dir: Vec<String>,
    pub exclude_from: Vec<String>,
    pub group_separator: Option<String>,
    pub label: Option<String>,
}

/// The texts as contracts speak of them.
pub struct STexts {
    pub patterns: Seq<Seq<char>>,
    pub pattern_file: Option<Seq<char>>,
    pub include_patterns: Seq<Seq<char>>,
    pub exclude_patterns: Seq<Seq<char>>,
    pub exclude_dir: Seq<Seq<char>>,
    pub exclude_from: Seq<Seq<char>>,
    pub group_separator: Option<Seq<char>>,
    pub label: Option<Seq<char>>,
}

/// The options of `grep`, in groups. File operands are kept among the
/// patterns, marked by a leading `"\0FILE:"`.
#[derive(Debug)]
pub struct Options {
    pub matching: MatchFlags,
    pub report: ReportFlags,
    pub naming: NamingFlags,
    pub files: FileFlags,
    pub limits: Limits,
    pub texts: Texts,
}

/// The options as contracts speak of them.
pub struct SOptions {
    pub matching: MatchFlags,
    pub report: ReportFlags,
    pub naming: NamingFlags,
    pub files: FileFlags,
    pub limits: Limits,
    pub texts: STexts,
}

pub open spec fn opt_str_view(o: Option<String>) -> Option<Seq<char>> {
    match o {
        Some(s) => Some(s@),
        None => None,
    }
}

impl View for Texts {
    type V = STexts;

    open spec fn view(&self) -> STexts {
        STexts {
            patterns: strings_view(self.patterns@),
            pattern_file: opt_str_view(self.pattern_file),
            include_patterns: strings_view(self.include_patterns@),
            exclude_patterns: strings_view(self.exclude_patterns@),
            exclude_dir: strings_view(self.exclude_dir@),
            exclude_from: strings_view(self.exclude_from@),
            group_separator: opt_str_view(self.group_separator),
            label: opt_str_view(self.label),
        }
    }
}

impl View for Options {
    type V = SOptions;

    open spec fn view(&self) -> SOptions {
        SOptions {
            matching: self.matching,
            report: self.report,
            naming: self.naming,
            files: self.files,
            limits: self.limits,
            texts: self.texts@,
        }
    }
}

/// The options before any argument is read.
pub open spec fn default_options_spec() -> SOptions {
    SOptions {
        matching: MatchFlags {
            ignore_case: false,
            invert_match: false,
            extended_regexp: false,
            fixed_strings: false,
            basic_regexp: false,
            line_regexp: false,
            word_regexp: false,
            perl_regexp: false,
        },
        report: ReportFlags {
            count: false,
            line_number: false,
            files_with_matches: false,
            files_without_match: false,
            only_matching: false,
            byte_offset: false,
            initial_tab: false,
        },
        naming: NamingFlags {
            quiet: false,
            no_messages: false,
            with_filename: false,
            no_filename: false,
            null_output: false,
            null_data: false,
        },
        files: FileFlags {
            recursive: false,
            dereference_recursive: false,
            text: false,
            strip_dot_prefix: false,
            show_help: false,
            show_version: false,
        },
        limits: Limits {
            max_count: None,
            after_context: 0,
            before_context: 0,
            context: 0,
            color: ColorMode::Auto,
            directories: DirAction::Read,
            binary_files: BinaryMode::Binary,
        },
        texts: STexts {
            patterns: Seq::empty(),
            pattern_file: None,
            include_patterns: Seq::empty(),
            exclude_patterns: Seq::empty(),
            exclude_dir: Seq::empty(),
            exclude_from: Seq::empty(),
            group_separator: None,
            label: None,
        },
    }
}

impl Options {
    /// The options before any argument is read.
    pub fn new() -> (r: Options)
        ensures
            r@ == default_options_spec(),
    {
        let r = Options {
            matching: MatchFlags {
                ignore_case: false,
                invert_match: false,
                extended_regexp: false,
                fixed_strings: false,
                basic_regexp: false,
                line_regexp: false,
                word_regexp: false,
                perl_regexp: false,
            },
            report: ReportFlags {
                count: false,
                line_number: false,
                files_with_matches: false,
                files_without_match: false,
                only_matching: false,
                byte_offset: false,
                initial_tab: false,
            },
            naming: NamingFlags {
                quiet: false,
                no_messages: false,
                with_filename: false,
                no_filename: false,
                null_output: false,
                null_data: false,
            },
            files: FileFlags {
                recursive: false,
                dereference_recursive: false,
                text: false,
                strip_dot_prefix: false,
                show_help: false,
                show_version: false,
            },
            limits: Limits {
                max_count: None,
                after_context: 0,
                before_context: 0,
                context: 0,
                color: ColorMode::Auto,
                directories: DirAction::Read,
                binary_files: BinaryMode::Binary,
            },
            texts: Texts {
                patterns: Vec::new(),
                pattern_file: None,
                include_patterns: Vec::new(),
                exclude_patterns: Vec::new(),
                exclude_dir: Vec::new(),
                exclude_from: Vec::new(),
                group_separator: None,
                label: None,
            },
        };
        proof {
            assert(strings_view(r.texts.patterns@) =~= Seq::<Seq<char>>::empty());
            assert(strings_view(r.texts.include_patterns@) =~= Seq::<Seq<char>>::empty());
            assert(strings_view(r.texts.exclude_patterns@) =~= Seq::<Seq<char>>::empty());
            assert(strings_view(r.texts.exclude_dir@) =~= Seq::<Seq<char>>::empty());
            assert(strings_view(r.texts.exclude_from@) =~= Seq::<Seq<char>>::empty());
        }
        r
    }
}

/// An option that takes no value, by its effect.
#[derive(Debug, Clone, Copy, PartialEq, Eq, Structural)]
pub enum Flag {
    IgnoreCase,
    NoIgnoreCase,
    InvertMatch,
    Count,
    LineNumber,
    FilesWithMatches,
    Quiet,
    NoMessages,
    ExtendedRegexp,
    FixedStrings,
    BasicRegexp,
    LineRegexp,
    WithFilename,
    NoFilename,
    OnlyMatching,
    FilesWithoutMatch,
    Recursive,
    DereferenceRecursive,
    WordRegexp,
    ByteOffset,
    NoColor,
    NullOutput,
    NullData,
    NoGroupSeparator,
    Ignored,
    InitialTab,
    Text,
    PerlRegexp,
    Help,
    Version,
    WithoutBinary,
}

/// What a flag does to how a pattern matches.
pub open spec fn match_flag(f: Flag, x: MatchFlags) -> MatchFlags {
    match f {
        Flag::IgnoreCase => MatchFlags { ignore_case: true, ..x },
        Flag::NoIgnoreCase => MatchFlags { ignore_case: false, ..x },
        Flag::InvertMatch => MatchFlags { invert_match: true, ..x },
        Flag::ExtendedRegexp => MatchFlags { extended_regexp: true, ..x },
        Flag::FixedStrings => MatchFlags { fixed_strings: true, ..x },
        Flag::BasicRegexp => MatchFlags { basic_regexp: true, ..x },
        Flag::LineRegexp => MatchFlags { line_regexp: true, ..x },
        Flag::WordRegexp => MatchFlags { word_regexp: true, ..x },
        Flag::PerlRegexp => MatchFlags { perl_regexp: true, ..x },
        _ => x,
    }
}

/// What a flag does to what is reported.
pub open spec fn report_flag(f: Flag, x: ReportFlags) -> ReportFlags {
    match f {
        Flag::Count => ReportFlags { count: true, ..x },
        Flag::LineNumber => ReportFlags { line_number: true, ..x },
        Flag::FilesWithMatches => ReportFlags { files_with_matches: true, ..x },
        Flag::OnlyMatching => ReportFlags { only_matching: true, ..x },
        Flag::FilesWithoutMatch => ReportFlags { files_without_match: true, ..x },
        Flag::ByteOffset => ReportFlags { byte_offset: true, ..x },
        Flag::InitialTab => ReportFlags { initial_tab: true, ..x },
        _ => x,
    }
}

/// What a flag does to messages and names.
pub open spec fn naming_flag(f: Flag, x: NamingFlags) -> NamingFlags {
    match f {
        Flag::Quiet => NamingFlags { quiet: true, ..x },
        Flag::NoMessages => NamingFlags { no_messages: true, ..x },
        Flag::WithFilename => NamingFlags { with_filename: true, ..x },
        Flag::NoFilename => NamingFlags { no_filename: true, ..x },
        Flag::NullOutput => NamingFlags { null_output: true, ..x },
        Flag::NullData => NamingFlags { null_data: true, ..x },
        _ => x,
    }
}

/// What a flag does to which files are read and what is asked.
pub open spec fn file_flag(f: Flag, x: FileFlags) -> FileFlags {
    match f {
        Flag::Recursive => FileFlags { recursive: true, ..x },
        Flag::DereferenceRecursive => FileFlags { recursive: true, dereference_recursive: true, ..x },
        Flag::Text => FileFlags { text: true, ..x },
        Flag::Help => FileFlags { show_help: true, ..x },
        Flag::Version => FileFlags { show_version: true, ..x },
        _ => x,
    }
}

/// What a flag does to the counts and modes.
pub open spec fn limits_flag(f: Flag, x: Limits) -> Limits {
    match f {
        Flag::NoColor => Limits { color: ColorMode::Never, ..x },
        Flag::Text => Limits { binary_files: BinaryMode::Text, ..x },
        Flag::WithoutBinary => Limits { binary_files: BinaryMode::Without, ..x },
        _ => x,
    }
}

/// What a flag does to the texts.
pub open spec fn texts_flag(f: Flag, x: STexts) -> STexts {
    match f {
        Flag::NoGroupSeparator => STexts { group_separator: None, ..x },
        _ => x,
    }
}

/// The options after a flag.
pub open spec fn apply_flag(f: Flag, o: SOptions) -> SOptions {
    SOptions {
        matching: match_flag(f, o.matching),
        report: report_flag(f, o.report),
        naming: naming_flag(f, o.naming),
        files: file_flag(f, o.files),
        limits: limits_flag(f, o.limits),
        texts: texts_flag(f, o.texts),
    }
}

/// The flag that a long name names.
#[verifier::opaque]
pub open spec fn long_flag_kind(name: Seq<char>) -> Option<Flag> {
    if name == "ignore-case"@ {
        Some(Flag::IgnoreCase)
    } else if name == "no-ignore-case"@ {
        Some(Flag::NoIgnoreCase)
    } else if name == "invert-match"@ {
        Some(Flag::InvertMatch)
    } else if name == "count"@ {
        Some(Flag::Count)
    } else if name == "line-number"@ {
        Some(Flag::LineNumber)
    } else if name == "files-with-matches"@ {
        Some(Flag::FilesWithMatches)
    } else if name == "quiet"@ {
        Some(Flag::Quiet)
    } else if name == "silent"@ {
        Some(Flag::Quiet)
    } else if name == "no-messages"@ {
        Some(Flag::NoMessages)
    } else if name == "extended-regexp"@ {
        Some(Flag::ExtendedRegexp)
    } else if name == "fixed-strings"@ {
        Some(Flag::FixedStrings)
    } else if name == "basic-regexp"@ {
        Some(Flag::BasicRegexp)
    } else if name == "line-regexp"@ {
        Some(Flag::LineRegexp)
    } else if name == "with-filename"@ {
        Some(Flag::WithFilename)
    } else if name == "no-filename"@ {
        Some(Flag::NoFilename)
    } else if name == "only-matching"@ {
        Some(Flag::OnlyMatching)
    } else if name == "files-without-match"@ {
        Some(Flag::FilesWithoutMatch)
    } else if name == "recursive"@ {
        Some(Flag::Recursive)
    } else if name == "dereference-recursive"@ {
        Some(Flag::DereferenceRecursive)
    } else if name == "word-regexp"@ {
        Some(Flag::WordRegexp)
    } else if name == "byte-offset"@ {
        Some(Flag::ByteOffset)
    } else if name == "no-color"@ {
        Some(Flag::NoColor)
    } else if name == "no-colour"@ {
        Some(Flag::NoColor)
    } else if name == "null"@ {
        Some(Flag::NullOutput)
    } else if name == "null-data"@ {
        Some(Flag::NullData)
    } else if name == "no-group-separator"@ {
        Some(Flag::NoGroupSeparator)
    } else if name == "line-buffered"@ {
        Some(Flag::Ignored)
    } else if name == "mmap"@ {
        Some(Flag::Ignored)
    } else if name == "unix-byte-offsets"@ {
        Some(Flag::Ignored)
    } else if name == "binary"@ {
        Some(Flag::Ignored)
    } else if name == "initial-tab"@ {
        Some(Flag::InitialTab)
    } else if name == "text"@ {
        Some(Flag::Text)
    } else if name == "perl-regexp"@ {
        Some(Flag::PerlRegexp)
    } else if name == "help"@ {
        Some(Flag::Help)
    } else if name == "version"@ {
        Some(Flag::Version)
    } else {
        None
    }
}

/// The flag that a letter names.
pub open spec fn short_flag_kind(c: char) -> Option<Flag> {
    if c == 'i' {
        Some(Flag::IgnoreCase)
    } else if c == 'y' {
        Some(Flag::IgnoreCase)
    } else if c == 'v' {
        Some(Flag::InvertMatch)
    } else if c == 'c' {
        Some(Flag::Count)
    } else if c == 'n' {
        Some(Flag::LineNumber)
    } else if c == 'l' {
        Some(Flag::FilesWithMatches)
    } else if c == 'q' {
        Some(Flag::Quiet)
    } else if c == 's' {
        Some(Flag::NoMessages)
    } else if c == 'E' {
        Some(Flag::ExtendedRegexp)
    } else if c == 'F' {
        Some(Flag::FixedStrings)
    } else if c == 'G' {
        Some(Flag::BasicRegexp)
    } else if c == 'x' {
        Some(Flag::LineRegexp)
    } else if c == 'H' {
        Some(Flag::WithFilename)
    } else if c == 'h' {
        Some(Flag::NoFilename)
    } else if c == 'o' {
        Some(Flag::OnlyMatching)
    } else if c == 'L' {
        Some(Flag::FilesWithoutMatch)
    } else if c == 'r' {
        Some(Flag::Recursive)
    } else if c == 'R' {
        Some(Flag::DereferenceRecursive)
    } else if c == 'w' {
        Some(Flag::WordRegexp)
    } else if c == 'b' {
        Some(Flag::ByteOffset)
    } else if c == 'a' {
        Some(Flag::Text)
    } else if c == 'P' {
        Some(Flag::PerlRegexp)
    } else if c == 'z' {
        Some(Flag::NullData)
    } else if c == 'Z' {
        Some(Flag::NullOutput)
    } else if c == 'T' {
        Some(Flag::InitialTab)
    } else if c == 'I' {
        Some(Flag::WithoutBinary)
    } else if c == 'U' {
        Some(Flag::Ignored)
    } else if c == 'u' {
        Some(Flag::Ignored)
    } else if c == 'V' {
        Some(Flag::Version)
    } else {
        None
    }
}

pub open spec fn long_flag(name: Seq<char>, o: SOptions) -> Option<SOptions> {
    match long_flag_kind(name) { Some(f) => Some(apply_flag(f, o)), None => None }
}

pub open spec fn short_flag(c: char, o: SOptions) -> Option<SOptions> {
    match short_flag_kind(c) { Some(f) => Some(apply_flag(f, o)), None => None }
}

/// What a flag does to one group of the options.
fn match_flag_exec(f: Flag, x: MatchFlags) -> (r: MatchFlags)
    ensures
        r == match_flag(f, x),
{
    match f {
        Flag::IgnoreCase => MatchFlags { ignore_case: true, ..x },
        Flag::NoIgnoreCase => MatchFlags { ignore_case: false, ..x },
        Flag::InvertMatch => MatchFlags { invert_match: true, ..x },
        Flag::ExtendedRegexp => MatchFlags { extended_regexp: true, ..x },
        Flag::FixedStrings => MatchFlags { fixed_strings: true, ..x },
        Flag::BasicRegexp => MatchFlags { basic_regexp: true, ..x },
        Flag::LineRegexp => MatchFlags { line_regexp: true, ..x },
        Flag::WordRegexp => MatchFlags { word_regexp: true, ..x },
        Flag::PerlRegexp => MatchFlags { perl_regexp: true, ..x },
        _ => x,
    }
}

/// What a flag does to one group of the options.
fn report_flag_exec(f: Flag, x: ReportFlags) -> (r: ReportFlags)
    ensures
        r == report_flag(f, x),
{
    match f {
        Flag::Count => ReportFlags { count: true, ..x },
        Flag::LineNumber => ReportFlags { line_number: true, ..x },
        Flag::FilesWithMatches => ReportFlags { files_with_matches: true, ..x },
        Flag::OnlyMatching => ReportFlags { only_matching: true, ..x },
        Flag::FilesWithoutMatch => ReportFlags { files_without_match: true, ..x },
        Flag::ByteOffset => ReportFlags { byte_offset: true, ..x },
        Flag::InitialTab => ReportFlags { initial_tab: true, ..x },
        _ => x,
    }
}

/// What a flag does to one group of the options.
fn naming_flag_exec(f: Flag, x: NamingFlags) -> (r: NamingFlags)
    ensures
        r == naming_flag(f, x),
{
    match f {
        Flag::Quiet => NamingFlags { quiet: true, ..x },
        Flag::NoMessages => NamingFlags { no_messages: true, ..x },
        Flag::WithFilename => NamingFlags { with_filename: true, ..x },
        Flag::NoFilename => NamingFlags { no_filename: true, ..x },
        Flag::NullOutput => NamingFlags { null_output: true, ..x },
        Flag::NullData => NamingFlags { null_data: true, ..x },
        _ => x,
    }
}

/// What a flag does to one group of the options.
fn file_flag_exec(f: Flag, x: FileFlags) -> (r: FileFlags)
    ensures
        r == file_flag(f, x),
{
    match f {
        Flag::Recursive => FileFlags { recursive: true, ..x },
        Flag::DereferenceRecursive => FileFlags { recursive: true, dereference_recursive: true, ..x },
        Flag::Text => FileFlags { text: true, ..x },
        Flag::Help => FileFlags { show_help: true, ..x },
        Flag::Version => FileFlags { show_version: true, ..x },
        _ => x,
    }
}

/// What a flag does to one group of the options.
fn limits_flag_exec(f: Flag, x: Limits) -> (r: Limits)
    ensures
        r == limits_flag(f, x),
{
    match f {
        Flag::NoColor => Limits { color: ColorMode::Never, ..x },
        Flag::Text => Limits { binary_files: BinaryMode::Text, ..x },
        Flag::WithoutBinary => Limits { binary_files: BinaryMode::Without, ..x },
        _ => x,
    }
}

/// The options after a flag.
fn apply_flag_exec(f: Flag, opts: &mut Options)
    ensures
        final(opts)@ == apply_flag(f, old(opts)@),
{
    opts.matching = match_flag_exec(f, opts.matching);
    opts.report = report_flag_exec(f, opts.report);
    opts.naming = naming_flag_exec(f, opts.naming);
    opts.files = file_flag_exec(f, opts.files);
    opts.limits = limits_flag_exec(f, opts.limits);
    if f == Flag::NoGroupSeparator {
        opts.texts.group_separator = None;
    }
}

/// The flag that a long name names.
fn long_flag_kind_exec(name: &[char]) -> (r: Option<Flag>)
    ensures
        r == long_flag_kind(name@),
{
    reveal(long_flag_kind);
    if chars_eq_str(name, "ignore-case") {
        Some(Flag::IgnoreCase)
    } else if chars_eq_str(name, "no-ignore-case") {
        Some(Flag::NoIgnoreCase)
    } else if chars_eq_str(name, "invert-match") {
        Some(Flag::InvertMatch)
    } else if chars_eq_str(name, "count") {
        Some(Flag::Count)
    } else if chars_eq_str(name, "line-number") {
        Some(Flag::LineNumber)
    } else if chars_eq_str(name, "files-with-matches") {
        Some(Flag::FilesWithMatches)
    } else if chars_eq_str(name, "quiet") {
        Some(Flag::Quiet)
    } else if chars_eq_str(name, "silent") {
        Some(Flag::Quiet)
    } else if chars_eq_str(name, "no-messages") {
        Some(Flag::NoMessages)
    } else if chars_eq_str(name, "extended-regexp") {
        Some(Flag::ExtendedRegexp)
    } else if chars_eq_str(name, "fixed-strings") {
        Some(Flag::FixedStrings)
    } else if chars_eq_str(name, "basic-regexp") {
        Some(Flag::BasicRegexp)
    } else if chars_eq_str(name, "line-regexp") {
        Some(Flag::LineRegexp)
    } else if chars_eq_str(name, "with-filename") {
        Some(Flag::WithFilename)
    } else if chars_eq_str(name, "no-filename") {
        Some(Flag::NoFilename)
    } else if chars_eq_str(name, "only-matching") {
        Some(Flag::OnlyMatching)
    } else if chars_eq_str(name, "files-without-match") {
        Some(Flag::FilesWithoutMatch)
    } else if chars_eq_str(name, "recursive") {
        Some(Flag::Recursive)
    } else if chars_eq_str(name, "dereference-recursive") {
        Some(Flag::DereferenceRecursive)
    } else if chars_eq_str(name, "word-regexp") {
        Some(Flag::WordRegexp)
    } else if chars_eq_str(name, "byte-offset") {
        Some(Flag::ByteOffset)
    } else if chars_eq_str(name, "no-color") {
        Some(Flag::NoColor)
    } else if chars_eq_str(name, "no-colour") {
        Some(Flag::NoColor)
    } else if chars_eq_str(name, "null") {
        Some(Flag::NullOutput)
    } else if chars_eq_str(name, "null-data") {
        Some(Flag::NullData)
    } else if chars_eq_str(name, "no-group-separator") {
        Some(Flag::NoGroupSeparator)
    } else if chars_eq_str(name, "line-buffered") {
        Some(Flag::Ignored)
    } else if chars_eq_str(name, "mmap") {
        Some(Flag::Ignored)
    } else if chars_eq_str(name, "unix-byte-offsets") {
        Some(Flag::Ignored)
    } else if chars_eq_str(name, "binary") {
        Some(Flag::Ignored)
    } else if chars_eq_str(name, "initial-tab") {
        Some(Flag::InitialTab)
    } else if chars_eq_str(name, "text") {
        Some(Flag::Text)
    } else if chars_eq_str(name, "perl-regexp") {
        Some(Flag::PerlRegexp)
    } else if chars_eq_str(name, "help") {
        Some(Flag::Help)
    } else if chars_eq_str(name, "version") {
        Some(Flag::Version)
    } else {
        None
    }
}

/// The flag that a letter names.
fn short_flag_kind_exec(c: char) -> (r: Option<Flag>)
    ensures
        r == short_flag_kind(c),
{
    if c == 'i' {
        Some(Flag::IgnoreCase)
    } else if c == 'y' {
        Some(Flag::IgnoreCase)
    } else if c == 'v' {
        Some(Flag::InvertMatch)
    } else if c == 'c' {
        Some(Flag::Count)
    } else if c == 'n' {
        Some(Flag::LineNumber)
    } else if c == 'l' {
        Some(Flag::FilesWithMatches)
    } else if c == 'q' {
        Some(Flag::Quiet)
    } else if c == 's' {
        Some(Flag::NoMessages)
    } else if c == 'E' {
        Some(Flag::ExtendedRegexp)
    } else if c == 'F' {
        Some(Flag::FixedStrings)
    } else if c == 'G' {
        Some(Flag::BasicRegexp)
    } else if c == 'x' {
        Some(Flag::LineRegexp)
    } else if c == 'H' {
        Some(Flag::WithFilename)
    } else if c == 'h' {
        Some(Flag::NoFilename)
    } else if c == 'o' {
        Some(Flag::OnlyMatching)
    } else if c == 'L' {
        Some(Flag::FilesWithoutMatch)
    } else if c == 'r' {
        Some(Flag::Recursive)
    } else if c == 'R' {
        Some(Flag::DereferenceRecursive)
    } else if c == 'w' {
        Some(Flag::WordRegexp)
    } else if c == 'b' {
        Some(Flag::ByteOffset)
    } else if c == 'a' {
        Some(Flag::Text)
    } else if c == 'P' {
        Some(Flag::PerlRegexp)
    } else if c == 'z' {
        Some(Flag::NullData)
    } else if c == 'Z' {
        Some(Flag::NullOutput)
    } else if c == 'T' {
        Some(Flag::InitialTab)
    } else if c == 'I' {
        Some(Flag::WithoutBinary)
    } else if c == 'U' {
        Some(Flag::Ignored)
    } else if c == 'u' {
        Some(Flag::Ignored)
    } else if c == 'V' {
        Some(Flag::Version)
    } else {
        None
    }
}

/// The colour mode that a `--color` value names.
pub open spec fn color_mode_of(s: Seq<char>) -> Option<ColorMode> {
    if s == "auto"@ {
        Some(ColorMode::Auto)
    } else if s == "always"@ || s == "yes"@ || s == "force"@ {
        Some(ColorMode::Always)
    } else if s == "never"@ || s == "no"@ || s == "none"@ {
        Some(ColorMode::Never)
    } else {
        None
    }
}

/// A `-d`/`--directories` value applied to the options.
pub open spec fn dir_action_spec(v: Seq<char>, o: SOptions) -> Result<SOptions, Seq<char>> {
    if v == "read"@ {
        Ok(SOptions { limits: Limits { directories: DirAction::Read, ..o.limits }, ..o })
    } else if v == "skip"@ {
        Ok(SOptions { limits: Limits { directories: DirAction::Skip, ..o.limits }, ..o })
    } else if v == "recurse"@ {
        Ok(SOptions { files: FileFlags { recursive: true, ..o.files }, ..o })
    } else {
        Err("'--directories' の値が不正です: '"@ + v + "'"@)
    }
}

pub open spec fn long_takes_value(name: Seq<char>) -> bool {
    name == "regexp"@ || name == "file"@ || name == "max-count"@ || name == "after-context"@
        || name == "before-context"@ || name == "context"@ || name == "include"@ || name == "exclude"@
        || name == "exclude-dir"@ || name == "exclude-from"@ || name == "directories"@
        || name == "devices"@ || name == "group-separator"@ || name == "label"@ || name == "binary-files"@
}

/// The message for a value that is not a count.
pub open spec fn bad_number_text(v: Seq<char>) -> Seq<char> {
    "不正な数値: '"@ + v + "'"@
}

/// A long option's value applied to the options.
/// The long options whose value is a text kept as given.
pub open spec fn long_text_name(name: Seq<char>) -> bool {
    name == "regexp"@ || name == "file"@ || name == "include"@ || name == "exclude"@
        || name == "exclude-dir"@ || name == "exclude-from"@ || name == "group-separator"@
        || name == "label"@
}

/// The value `v` of a long option that sets a text.
pub open spec fn long_text_effect(name: Seq<char>, v: Seq<char>, t: STexts) -> STexts {
    if name == "regexp"@ {
        STexts { patterns: t.patterns.push(v), ..t }
    } else if name == "file"@ {
        STexts { pattern_file: Some(v), ..t }
    } else if name == "include"@ {
        STexts { include_patterns: t.include_patterns.push(v), ..t }
    } else if name == "exclude"@ {
        STexts { exclude_patterns: t.exclude_patterns.push(v), ..t }
    } else if name == "exclude-dir"@ {
        STexts { exclude_dir: t.exclude_dir.push(v), ..t }
    } else if name == "exclude-from"@ {
        STexts { exclude_from: t.exclude_from.push(v), ..t }
    } else if name == "group-separator"@ {
        STexts { group_separator: Some(v), ..t }
    } else {
        STexts { label: Some(v), ..t }
    }
}

/// The long options whose value is a count.
pub open spec fn long_number_name(name: Seq<char>) -> bool {
    name == "max-count"@ || name == "after-context"@ || name == "before-context"@ || name == "context"@
}

/// The value `v` of a long option that sets a count.
pub open spec fn long_number_effect(name: Seq<char>, v: Seq<char>, l: Limits) -> Result<Limits, Seq<char>> {
    match parse_int_spec(v, 0, usize::MAX as int) {
        None => Err(bad_number_text(v)),
        Some(k) => Ok(if name == "max-count"@ {
            Limits { max_count: Some(k as usize), ..l }
        } else if name == "after-context"@ {
            Limits { after_context: k as usize, ..l }
        } else if name == "before-context"@ {
            Limits { before_context: k as usize, ..l }
        } else {
            Limits { context: k as usize, ..l }
        }),
    }
}

/// A long option's value applied to the options (`name` being one that
/// takes a value).
#[verifier::opaque]
pub open spec fn long_value_effect(name: Seq<char>, v: Seq<char>, o: SOptions) -> Result<SOptions, Seq<char>> {
    if long_text_name(name) {
        Ok(SOptions { texts: long_text_effect(name, v, o.texts), ..o })
    } else if long_number_name(name) {
        match long_number_effect(name, v, o.limits) {
            Ok(l) => Ok(SOptions { limits: l, ..o }),
            Err(e) => Err(e),
        }
    } else if name == "directories"@ {
        dir_action_spec(v, o)
    } else if name == "devices"@ {
        if v == "read"@ || v == "skip"@ { Ok(o) } else { Err("'--devices' の値が不正です: '"@ + v + "'"@) }
    } else {
        match binary_mode_of(v) {
            Some(m) => Ok(SOptions { limits: Limits { binary_files: m, ..o.limits }, ..o }),
            None => Err("'--binary-files' の値が不正です: '"@ + v + "'"@),
        }
    }
}

/// The treatment of binary files that a `--binary-files` value names.
pub open spec fn binary_mode_of(v: Seq<char>) -> Option<BinaryMode> {
    if v == "binary"@ {
        Some(BinaryMode::Binary)
    } else if v == "text"@ {
        Some(BinaryMode::Text)
    } else if v == "without-match"@ {
        Some(BinaryMode::Without)
    } else {
        None
    }
}

/// The values of `--color`, `--binary-files` and `--directories`:
/// `always`, `yes` and `force` colour, `never`, `no` and `none` do not,
/// `auto` colours on a terminal; binary files are reported (`binary`),
/// searched as text (`text`) or skipped (`without-match`); directories
/// are read, skipped, or searched recursively.
pub proof fn lemma_option_values(o: SOptions)
    ensures
        color_mode_of("auto"@) == Some(ColorMode::Auto),
        color_mode_of("always"@) == Some(ColorMode::Always) && color_mode_of("yes"@) == Some(ColorMode::Always)
            && color_mode_of("force"@) == Some(ColorMode::Always),
        color_mode_of("never"@) == Some(ColorMode::Never) && color_mode_of("no"@) == Some(ColorMode::Never)
            && color_mode_of("none"@) == Some(ColorMode::Never),
        binary_mode_of("binary"@) == Some(BinaryMode::Binary),
        binary_mode_of("text"@) == Some(BinaryMode::Text),
        binary_mode_of("without-match"@) == Some(BinaryMode::Without),
        dir_action_spec("read"@, o) is Ok && dir_action_spec("read"@, o)->Ok_0.limits.directories == DirAction::Read,
        dir_action_spec("skip"@, o) is Ok && dir_action_spec("skip"@, o)->Ok_0.limits.directories == DirAction::Skip,
        dir_action_spec("recurse"@, o) is Ok && dir_action_spec("recurse"@, o)->Ok_0.files.recursive,
{
    reveal_strlit("auto");
    reveal_strlit("always");
    reveal_strlit("yes");
    reveal_strlit("force");
    reveal_strlit("never");
    reveal_strlit("no");
    reveal_strlit("none");
    reveal_strlit("binary");
    reveal_strlit("text");
    reveal_strlit("without-match");
    reveal_strlit("read");
    reveal_strlit("skip");
    reveal_strlit("recurse");
    assert("always"@.len() != "auto"@.len() && "yes"@.len() != "auto"@.len() && "force"@.len() != "auto"@.len());
    assert("never"@.len() != "auto"@.len() && "never"@.len() != "always"@.len() && "never"@.len() != "yes"@.len());
    assert("never"@[0] != "force"@[0]);
    assert("no"@.len() != "auto"@.len() && "no"@.len() != "always"@.len() && "no"@.len() != "yes"@.len() && "no"@.len() != "force"@.len());
    assert("none"@[0] != "auto"@[0] && "none"@.len() != "always"@.len() && "none"@.len() != "yes"@.len() && "none"@.len() != "force"@.len());
    assert("text"@.len() != "binary"@.len());
    assert("without-match"@.len() != "binary"@.len() && "without-match"@.len() != "text"@.len());
    assert("skip"@[0] != "read"@[0]);
    assert("recurse"@.len() != "read"@.len() && "recurse"@.len() != "skip"@.len());
}

/// The value of an option: the one after `=`, or the next argument.
pub open spec fn get_value_spec(opt_name: Seq<char>, value: Option<Seq<char>>, args: Seq<Seq<char>>, i: int) -> Result<(Seq<char>, int), Seq<char>> {
    match value {
        Some(v) => Ok((v, i)),
        None => if 0 <= i + 1 < args.len() {
            Ok((args[i + 1], i + 1))
        } else {
            Err("option '"@ + opt_name + "' requires an argument"@)
        },
    }
}

/// A long option (the text after `--`) at argument `i`: the options after
/// it and the index of the last argument it used.
pub open spec fn long_spec(opt: Seq<char>, args: Seq<Seq<char>>, i: int, o: SOptions) -> Result<(SOptions, int), Seq<char>> {
    long_option_spec(long_name_of(opt), long_value_of(opt), args, i, o)
}

/// The name of a long option: the text before the first `=`.
pub open spec fn long_name_of(opt: Seq<char>) -> Seq<char> {
    match first_index_of(opt, '=') {
        Some(k) => opt.take(k),
        None => opt,
    }
}

/// The value given to a long option after its first `=`, if any.
pub open spec fn long_value_of(opt: Seq<char>) -> Option<Seq<char>> {
    match first_index_of(opt, '=') {
        Some(k) => Some(opt.skip(k + 1)),
        None => None,
    }
}

/// The long option `name`, with the value `value` given after `=`.
pub open spec fn long_option_spec(name: Seq<char>, value: Option<Seq<char>>, args: Seq<Seq<char>>, i: int, o: SOptions) -> Result<(SOptions, int), Seq<char>> {
    match long_flag(name, o) {
        Some(o2) => Ok((o2, i)),
        None => if name == "color"@ || name == "colour"@ {
            let v = match value { Some(v) => v, None => "always"@ };
            match color_mode_of(v) {
                Some(cm) => Ok((SOptions { limits: Limits { color: cm, ..o.limits }, ..o }, i)),
                None => Err("'--color' の値が不正です: '"@ + v + "'"@),
            }
        } else if long_takes_value(name) {
            match get_value_spec("--"@ + name, value, args, i) {
                Err(e) => Err(e),
                Ok((v, i2)) => match long_value_effect(name, v, o) {
                    Ok(o2) => Ok((o2, i2)),
                    Err(e) => Err(e),
                },
            }
        } else {
            Err("不明なオプション: '--"@ + name + "'"@)
        },
    }
}

pub open spec fn short_takes_value(c: char) -> bool {
    c == 'e' || c == 'f' || c == 'd' || c == 'D' || c == 'm' || c == 'A' || c == 'B' || c == 'C'
}

/// The message for a bad value of a short option.
pub open spec fn bad_short_value_text(c: char, v: Seq<char>) -> Seq<char> {
    "オプション '-"@ + seq![c] + "' の値が不正です: '"@ + v + "'"@
}

/// A short option's value applied to the options.
pub open spec fn short_value_effect(c: char, v: Seq<char>, o: SOptions) -> Result<SOptions, Seq<char>> {
    if c == 'e' {
        Ok(SOptions { texts: STexts { patterns: o.texts.patterns.push(v), ..o.texts }, ..o })
    } else if c == 'f' {
        Ok(SOptions { texts: STexts { pattern_file: Some(v), ..o.texts }, ..o })
    } else if c == 'd' {
        dir_action_spec(v, o)
    } else if c == 'D' {
        if v == "read"@ || v == "skip"@ { Ok(o) } else { Err(bad_short_value_text(c, v)) }
    } else {
        match short_number_effect(c, v, o.limits) {
            Ok(l) => Ok(SOptions { limits: l, ..o }),
            Err(e) => Err(e),
        }
    }
}

/// The value `v` of one of `-m`, `-A`, `-B` and `-C`.
pub open spec fn short_number_effect(c: char, v: Seq<char>, l: Limits) -> Result<Limits, Seq<char>> {
    match parse_int_spec(v, 0, usize::MAX as int) {
        None => Err(bad_short_value_text(c, v)),
        Some(k) => Ok(if c == 'm' {
            Limits { max_count: Some(k as usize), ..l }
        } else if c == 'A' {
            Limits { after_context: k as usize, ..l }
        } else if c == 'B' {
            Limits { before_context: k as usize, ..l }
        } else {
            Limits { context: k as usize, ..l }
        }),
    }
}

/// The value of a short option: the rest of the cluster, or the next
/// argument.
pub open spec fn short_value_spec(c: char, chars: Seq<char>, j: int, args: Seq<Seq<char>>, i: int) -> Result<(Seq<char>, int), Seq<char>> {
    if j + 1 < chars.len() {
        Ok((chars.skip(j + 1), i))
    } else if 0 <= i + 1 < args.len() {
        Ok((args[i + 1], i + 1))
    } else {
        Err("option requires an argument -- '"@ + seq![c] + "'"@)
    }
}

/// What one letter of a cluster of short options does: the options go on
/// to the next letter, or the cluster ends with a result.
pub enum ShortStep {
    Next(SOptions),
    Stop(Result<(SOptions, int), Seq<char>>),
}

/// The letter `chars[j]` of a cluster of short options at argument `i`.
pub open spec fn short_step(chars: Seq<char>, j: int, args: Seq<Seq<char>>, i: int, o: SOptions) -> ShortStep {
    let c = chars[j];
    match short_flag(c, o) {
        Some(o2) => ShortStep::Next(o2),
        None => if short_takes_value(c) {
            ShortStep::Stop(match short_value_spec(c, chars, j, args, i) {
                Err(e) => Err(e),
                Ok((v, i2)) => match short_value_effect(c, v, o) {
                    Ok(o2) => Ok((o2, i2)),
                    Err(e) => Err(e),
                },
            })
        } else if crate::text::is_digit(c) {
            match parse_int_spec(chars.skip(j), 0, usize::MAX as int) {
                Some(n) => ShortStep::Stop(Ok((SOptions { limits: Limits { context: n as usize, ..o.limits }, ..o }, i))),
                None => ShortStep::Next(o),
            }
        } else {
            ShortStep::Stop(Err("不正なオプション: '-"@ + seq![c] + "'"@))
        },
    }
}

/// The letters `chars[j..]` of a cluster of short options at argument `i`.
pub open spec fn short_from(chars: Seq<char>, j: int, args: Seq<Seq<char>>, i: int, o: SOptions) -> Result<(SOptions, int), Seq<char>>
    decreases chars.len() - j,
{
    if j < 0 || j >= chars.len() {
        Ok((o, i))
    } else {
        match short_step(chars, j, args, i, o) {
            ShortStep::Next(o2) => short_from(chars, j + 1, args, i, o2),
            ShortStep::Stop(r) => r,
        }
    }
}

/// The options as they stand before the first argument.
pub open spec fn initial_options() -> SOptions {
    SOptions { limits: Limits { color: ColorMode::Auto, ..default_options_spec().limits }, texts: STexts { group_separator: Some("--"@), ..default_options_spec().texts }, ..default_options_spec() }
}

/// The arguments from `i` on (argument 0 is the program's name).
pub open spec fn args_from(args: Seq<Seq<char>>, i: int, o: SOptions, positional: Seq<Seq<char>>, end_of_opts: bool) -> Result<(SOptions, Seq<Seq<char>>), Seq<char>>
    decreases args.len() - i,
{
    if i < 0 || i >= args.len() {
        Ok((o, positional))
    } else {
        let a = args[i];
        if end_of_opts {
            args_from(args, i + 1, o, positional.push(a), true)
        } else if a == "--"@ {
            args_from(args, i + 1, o, positional, true)
        } else if is_prefix("--"@, a) {
            match long_spec(a.skip(2), args, i, o) {
                Err(e) => Err(e),
                Ok((o2, i2)) => if i <= i2 < args.len() { args_from(args, i2 + 1, o2, positional, false) } else { Err(Seq::empty()) },
            }
        } else if is_prefix("-"@, a) && a.len() > 1 {
            match short_from(a.skip(1), 0, args, i, o) {
                Err(e) => Err(e),
                Ok((o2, i2)) => if i <= i2 < args.len() { args_from(args, i2 + 1, o2, positional, false) } else { Err(Seq::empty()) },
            }
        } else {
            args_from(args, i + 1, o, positional.push(a), false)
        }
    }
}

/// The file operands, each marked by a leading `"\0FILE:"`.
pub open spec fn marked_files(files: Seq<Seq<char>>) -> Seq<Seq<char>> {
    files.map_values(|f: Seq<char>| "\0FILE:"@ + f)
}

/// What `parse_args` gives: the options, where the first operand is the
/// pattern unless `-e`, `--regexp`, `-f` or `--file` gave one, and the
/// other operands follow the patterns as marked file names.
pub open spec fn parse_args_spec(args: Seq<Seq<char>>) -> Result<SOptions, Seq<char>> {
    match args_from(args, 1, initial_options(), Seq::empty(), false) {
        Err(e) => Err(e),
        Ok((o, pos)) => Ok(apply_operands(o, pos)),
    }
}

/// The options after the operands `pos`: the first is the pattern unless
/// one was given, and the others are files.
pub open spec fn apply_operands(o: SOptions, pos: Seq<Seq<char>>) -> SOptions {
    SOptions {
        texts: STexts {
            patterns: operand_patterns(o.texts.patterns, o.texts.pattern_file is Some, pos),
            ..o.texts
        },
        ..o
    }
}

/// The patterns after the operands `pos`, `has_file` telling whether a
/// pattern file was given.
pub open spec fn operand_patterns(pats: Seq<Seq<char>>, has_file: bool, pos: Seq<Seq<char>>) -> Seq<Seq<char>> {
    if pats.len() == 0 && !has_file && pos.len() > 0 {
        pats.push(pos[0]) + marked_files(pos.drop_first())
    } else {
        pats + marked_files(pos)
    }
}


/// A string's view, where there is one.
pub open spec fn opt_chars_view(o: Option<Vec<char>>) -> Option<Seq<char>> {
    match o {
        Some(v) => Some(v@),
        None => None,
    }
}

/// `r` is the error `e`.
pub open spec fn is_err_text<T>(r: Result<T, String>, e: Seq<char>) -> bool {
    match r {
        Ok(_) => false,
        Err(s) => s@ == e,
    }
}

/// The value of a long option: the text after `=`, or else the next
/// argument, which `i` then points at.
fn get_option_value(opt_name: &[char], value: &Option<Vec<char>>, args: &[String], i: &mut usize) -> (r: Result<String, String>)
    requires
        *old(i) < args.len(),
    ensures
        match get_value_spec(opt_name@, opt_chars_view(*value), strings_view(args@), *old(i) as int) {
            Ok((v, i2)) => (match r {
                Ok(s) => s@ == v,
                Err(_) => false,
            }) && *final(i) == i2,
            Err(e) => is_err_text(r, e),
        },
        *old(i) <= *final(i) < args.len(),
{
    match value {
        Some(v) => Ok(string_of(v.as_slice())),
        None => {
            if *i + 1 < args.len() {
                *i = *i + 1;
                Ok(args[*i].clone())
            } else {
                Err(wrap_chars("option '", opt_name, "' requires an argument"))
            }
        },
    }
}

/// The colour mode that a `--color` value names.
fn parse_color_mode(s: &str) -> (r: Result<ColorMode, String>)
    ensures
        match color_mode_of(s@) {
            Some(c) => r == Ok::<ColorMode, String>(c),
            None => is_err_text(r, "'--color' の値が不正です: '"@ + s@ + "'"@),
        },
{
    if str_eq(s, "auto") {
        Ok(ColorMode::Auto)
    } else if str_eq(s, "always") || str_eq(s, "yes") || str_eq(s, "force") {
        Ok(ColorMode::Always)
    } else if str_eq(s, "never") || str_eq(s, "no") || str_eq(s, "none") {
        Ok(ColorMode::Never)
    } else {
        Err(join3("'--color' の値が不正です: '", s, "'"))
    }
}

/// Applies a `-d`/`--directories` value.
fn apply_dir_action(val: &str, opts: &mut Options) -> (r: Result<(), String>)
    ensures
        match dir_action_spec(val@, old(opts)@) {
            Ok(o2) => r is Ok && final(opts)@ == o2,
            Err(e) => is_err_text(r, e) && final(opts)@ == old(opts)@,
        },
{
    if str_eq(val, "read") {
        opts.limits.directories = DirAction::Read;
        Ok(())
    } else if str_eq(val, "skip") {
        opts.limits.directories = DirAction::Skip;
        Ok(())
    } else if str_eq(val, "recurse") {
        opts.files.recursive = true;
        Ok(())
    } else {
        Err(join3("'--directories' の値が不正です: '", val, "'"))
    }
}

/// Appends `v` to a list of texts.
fn push_text(list: &mut Vec<String>, v: String)
    ensures
        strings_view(final(list)@) == strings_view(old(list)@).push(v@),
{
    list.push(v);
    proof {
        assert(strings_view(list@) =~= strings_view(old(list)@).push(v@));
    }
}

/// Applies the value `v` of a long option that sets a text.
fn long_text_value(name: &[char], v: String, t: &mut Texts)
    requires
        long_text_name(name@),
    ensures
        final(t)@ == long_text_effect(name@, v@, old(t)@),
{
    if chars_eq_str(name, "regexp") {
        push_text(&mut t.patterns, v);
    } else if chars_eq_str(name, "file") {
        t.pattern_file = Some(v);
    } else if chars_eq_str(name, "include") {
        push_text(&mut t.include_patterns, v);
    } else if chars_eq_str(name, "exclude") {
        push_text(&mut t.exclude_patterns, v);
    } else if chars_eq_str(name, "exclude-dir") {
        push_text(&mut t.exclude_dir, v);
    } else if chars_eq_str(name, "exclude-from") {
        push_text(&mut t.exclude_from, v);
    } else if chars_eq_str(name, "group-separator") {
        t.group_separator = Some(v);
    } else {
        t.label = Some(v);
    }
}

/// Applies the value `v` of a long option that sets a count.
fn long_number_value(name: &[char], v: &[char], l: Limits) -> (r: Result<Limits, String>)
    requires
        long_number_name(name@),
    ensures
        match long_number_effect(name@, v@, l) {
            Ok(l2) => r == Ok::<Limits, String>(l2),
            Err(e) => is_err_text(r, e),
        },
{
    match parse_usize(v) {
        None => Err(wrap_chars("不正な数値: '", v, "'")),
        Some(k) => Ok(if chars_eq_str(name, "max-count") {
            Limits { max_count: Some(k), ..l }
        } else if chars_eq_str(name, "after-context") {
            Limits { after_context: k, ..l }
        } else if chars_eq_str(name, "before-context") {
            Limits { before_context: k, ..l }
        } else {
            Limits { context: k, ..l }
        }),
    }
}

/// Whether the long option `name` sets a text.
fn long_text_name_exec(name: &[char]) -> (r: bool)
    ensures
        r == long_text_name(name@),
{
    chars_eq_str(name, "regexp") || chars_eq_str(name, "file") || chars_eq_str(name, "include")
        || chars_eq_str(name, "exclude") || chars_eq_str(name, "exclude-dir")
        || chars_eq_str(name, "exclude-from") || chars_eq_str(name, "group-separator")
        || chars_eq_str(name, "label")
}

/// Whether the long option `name` sets a count.
fn long_number_name_exec(name: &[char]) -> (r: bool)
    ensures
        r == long_number_name(name@),
{
    chars_eq_str(name, "max-count") || chars_eq_str(name, "after-context")
        || chars_eq_str(name, "before-context") || chars_eq_str(name, "context")
}

/// The treatment of binary files that a `--binary-files` value names.
fn binary_mode_of_exec(v: &[char]) -> (r: Option<BinaryMode>)
    ensures
        r == binary_mode_of(v@),
{
    if chars_eq_str(v, "binary") {
        Some(BinaryMode::Binary)
    } else if chars_eq_str(v, "text") {
        Some(BinaryMode::Text)
    } else if chars_eq_str(v, "without-match") {
        Some(BinaryMode::Without)
    } else {
        None
    }
}

/// Applies the value `v` of the long option `name`.
fn long_value_effect_exec(name: &[char], v: String, opts: &mut Options) -> (r: Result<(), String>)
    ensures
        match long_value_effect(name@, v@, old(opts)@) {
            Ok(o2) => r is Ok && final(opts)@ == o2,
            Err(e) => is_err_text(r, e) && final(opts)@ == old(opts)@,
        },
{
    reveal(long_value_effect);
    let vc = chars_of(v.as_str());
    if long_text_name_exec(name) {
        long_text_value(name, v, &mut opts.texts);
        Ok(())
    } else if long_number_name_exec(name) {
        match long_number_value(name, &vc, opts.limits) {
            Ok(l) => {
                opts.limits = l;
                Ok(())
            },
            Err(e) => Err(e),
        }
    } else if chars_eq_str(name, "directories") {
        apply_dir_action(v.as_str(), opts)
    } else if chars_eq_str(name, "devices") {
        if chars_eq_str(&vc, "read") || chars_eq_str(&vc, "skip") {
            Ok(())
        } else {
            Err(wrap_chars("'--devices' の値が不正です: '", &vc, "'"))
        }
    } else {
        match binary_mode_of_exec(&vc) {
            Some(m) => {
                opts.limits.binary_files = m;
                Ok(())
            },
            None => Err(wrap_chars("'--binary-files' の値が不正です: '", &vc, "'")),
        }
    }
}

/// Whether the long option `name` takes a value.
fn long_takes_value_exec(name: &[char]) -> (r: bool)
    ensures
        r == long_takes_value(name@),
{
    chars_eq_str(name, "regexp") || chars_eq_str(name, "file") || chars_eq_str(name, "max-count")
        || chars_eq_str(name, "after-context") || chars_eq_str(name, "before-context")
        || chars_eq_str(name, "context") || chars_eq_str(name, "include") || chars_eq_str(name, "exclude")
        || chars_eq_str(name, "exclude-dir") || chars_eq_str(name, "exclude-from")
        || chars_eq_str(name, "directories") || chars_eq_str(name, "devices")
        || chars_eq_str(name, "group-separator") || chars_eq_str(name, "label")
        || chars_eq_str(name, "binary-files")
}

/// Splits a long option at its first `=` into name and value.
fn split_long_option(opt: &[char]) -> (r: (Vec<char>, Option<Vec<char>>))
    ensures
        r.0@ == long_name_of(opt@),
        opt_chars_view(r.1) == long_value_of(opt@),
{
    match find_char(opt, '=') {
        Some(p) => {
            proof {
                lemma_first_index_of(opt@, '=', p as int);
            }
            assert(p < opt.len());
            (slice_chars(opt, 0, p), Some(slice_chars(opt, p + 1, opt.len())))
        },
        None => {
            proof {
                assert(opt@.subrange(0, opt@.len() as int) == opt@);
            }
            (slice_chars(opt, 0, opt.len()), None)
        },
    }
}

/// Reads the long option `name`, given `value` after `=`; `i` is left at
/// the last argument the option used.
fn parse_named_long_option(name: &[char], value: Option<Vec<char>>, args: &[String], i: &mut usize, opts: &mut Options) -> (r: Result<(), String>)
    requires
        *old(i) < args.len(),
    ensures
        match long_option_spec(name@, opt_chars_view(value), strings_view(args@), *old(i) as int, old(opts)@) {
            Ok((o2, i2)) => r is Ok && final(opts)@ == o2 && *final(i) == i2,
            Err(e) => is_err_text(r, e) && final(opts)@ == old(opts)@,
        },
        *old(i) <= *final(i) < args.len(),
{
    match long_flag_kind_exec(name) {
        Some(f) => {
            apply_flag_exec(f, opts);
            return Ok(());
        },
        None => {},
    }
    if chars_eq_str(name, "color") || chars_eq_str(name, "colour") {
        let v: String = match value {
            Some(v) => string_of(&v),
            None => String::from_str("always"),
        };
        match parse_color_mode(v.as_str()) {
            Ok(cm) => {
                opts.limits.color = cm;
                Ok(())
            },
            Err(e) => Err(e),
        }
    } else if long_takes_value_exec(name) {
        let dashed = prefixed("--", name);
        match get_option_value(&dashed, &value, args, i) {
            Ok(v) => long_value_effect_exec(name, v, opts),
            Err(e) => Err(e),
        }
    } else {
        Err(wrap_chars("不明なオプション: '--", name, "'"))
    }
}

/// Reads a long option, `opt` being the text after `--`; `i` is left at
/// the last argument the option used.
fn parse_long_option(opt: &[char], args: &[String], i: &mut usize, opts: &mut Options) -> (r: Result<(), String>)
    requires
        *old(i) < args.len(),
    ensures
        match long_spec(opt@, strings_view(args@), *old(i) as int, old(opts)@) {
            Ok((o2, i2)) => r is Ok && final(opts)@ == o2 && *final(i) == i2,
            Err(e) => is_err_text(r, e) && final(opts)@ == old(opts)@,
        },
        *old(i) <= *final(i) < args.len(),
{
    let (name, value) = split_long_option(opt);
    parse_named_long_option(&name, value, args, i, opts)
}

/// The text `a`, the character `c`, then the text `b`.
fn wrap_char(a: &str, c: char, b: &str) -> (r: String)
    ensures
        r@ == a@ + seq![c] + b@,
{
    let mut s = String::from_str(a);
    crate::text::push_char(&mut s, c);
    s.append(b);
    s
}

/// The value of the short option `opt` at `chars[j]`: the rest of the
/// cluster, or else the next argument, which `i` then points at.
fn get_short_option_value(opt: char, chars: &[char], j: usize, args: &[String], i: &mut usize) -> (r: Result<String, String>)
    requires
        j < chars.len(),
        *old(i) < args.len(),
    ensures
        match short_value_spec(opt, chars@, j as int, strings_view(args@), *old(i) as int) {
            Ok((v, i2)) => (match r {
                Ok(s) => s@ == v,
                Err(_) => false,
            }) && *final(i) == i2,
            Err(e) => is_err_text(r, e),
        },
        *old(i) <= *final(i) < args.len(),
{
    if j + 1 < chars.len() {
        let rest = slice_chars(chars, j + 1, chars.len());
        proof {
            assert(rest@ == chars@.skip(j + 1));
        }
        Ok(string_of(&rest))
    } else if *i + 1 < args.len() {
        *i = *i + 1;
        Ok(args[*i].clone())
    } else {
        Err(wrap_char("option requires an argument -- '", opt, "'"))
    }
}

/// Applies the value `v` of one of `-m`, `-A`, `-B` and `-C`.
fn short_number_value(c: char, v: &[char], l: Limits) -> (r: Result<Limits, String>)
    ensures
        match short_number_effect(c, v@, l) {
            Ok(l2) => r == Ok::<Limits, String>(l2),
            Err(e) => is_err_text(r, e),
        },
{
    match parse_usize(v) {
        None => Err(bad_short_value(c, v)),
        Some(k) => Ok(if c == 'm' {
            Limits { max_count: Some(k), ..l }
        } else if c == 'A' {
            Limits { after_context: k, ..l }
        } else if c == 'B' {
            Limits { before_context: k, ..l }
        } else {
            Limits { context: k, ..l }
        }),
    }
}

/// The message for a bad value of a short option.
fn bad_short_value(c: char, v: &[char]) -> (r: String)
    ensures
        r@ == bad_short_value_text(c, v@),
{
    let mut s = wrap_char("オプション '-", c, "' の値が不正です: '");
    crate::text::push_chars(&mut s, v);
    s.append("'");
    s
}

/// Applies the value `v` of the short option `c`.
fn short_value_effect_exec(c: char, v: String, opts: &mut Options) -> (r: Result<(), String>)
    ensures
        match short_value_effect(c, v@, old(opts)@) {
            Ok(o2) => r is Ok && final(opts)@ == o2,
            Err(e) => is_err_text(r, e),
        },
{
    let vc = chars_of(v.as_str());
    if c == 'e' {
        push_text(&mut opts.texts.patterns, v);
        Ok(())
    } else if c == 'f' {
        opts.texts.pattern_file = Some(v);
        Ok(())
    } else if c == 'd' {
        apply_dir_action(v.as_str(), opts)
    } else if c == 'D' {
        if chars_eq_str(&vc, "read") || chars_eq_str(&vc, "skip") {
            Ok(())
        } else {
            Err(bad_short_value(c, &vc))
        }
    } else {
        match short_number_value(c, &vc, opts.limits) {
            Ok(l) => {
                opts.limits = l;
                Ok(())
            },
            Err(e) => Err(e),
        }
    }
}

/// Reads the letter `chars[j]` of a cluster of short options: `None` when
/// the cluster goes on, else the cluster's result.
fn short_option_at(chars: &[char], j: usize, args: &[String], i: &mut usize, opts: &mut Options) -> (r: Option<Result<(), String>>)
    requires
        j < chars.len(),
        *old(i) < args.len(),
    ensures
        match short_step(chars@, j as int, strings_view(args@), *old(i) as int, old(opts)@) {
            ShortStep::Next(o2) => r is None && final(opts)@ == o2 && *final(i) == *old(i),
            ShortStep::Stop(Ok((o2, i2))) => (match r {
                Some(res) => res is Ok,
                None => false,
            }) && final(opts)@ == o2 && *final(i) == i2,
            ShortStep::Stop(Err(e)) => (match r {
                Some(res) => is_err_text(res, e),
                None => false,
            }),
        },
        *old(i) <= *final(i) < args.len(),
{
    let c = chars[j];
    let ghost sargs = strings_view(args@);
    let ghost o = opts@;
    let ghost i0 = *i;
    match short_flag_kind_exec(c) {
        Some(f) => {
            apply_flag_exec(f, opts);
            return None;
        },
        None => {},
    }
    assert(short_flag(c, o) is None);
    if c == 'e' || c == 'f' || c == 'd' || c == 'D' || c == 'm' || c == 'A' || c == 'B' || c == 'C' {
        assert(short_takes_value(c));
        match get_short_option_value(c, chars, j, args, i) {
            Ok(v) => {
                let res = short_value_effect_exec(c, v, opts);
                assert(short_step(chars@, j as int, sargs, i0 as int, o) is Stop);
                Some(res)
            },
            Err(e) => Some(Err(e)),
        }
    } else if 48 <= c as u32 && (c as u32) < 58 {
        let rest = slice_chars(chars, j, chars.len());
        proof {
            assert(rest@ == chars@.skip(j as int));
        }
        match parse_usize(&rest) {
            Some(n) => {
                opts.limits.context = n;
                assert(short_step(chars@, j as int, sargs, i0 as int, o) == ShortStep::Stop(Ok((opts@, i0 as int))));
                Some(Ok(()))
            },
            None => {
                assert(short_step(chars@, j as int, sargs, i0 as int, o) == ShortStep::Next(o));
                None
            },
        }
    } else {
        let e = wrap_char("不正なオプション: '-", c, "'");
        assert(short_step(chars@, j as int, sargs, i0 as int, o) == ShortStep::Stop(Err(e@)));
        Some(Err(e))
    }
}

/// Reads a cluster of short options (`arg` with its leading `-`); `i` is
/// left at the last argument the options used.
fn parse_short_options(arg: &[char], args: &[String], i: &mut usize, opts: &mut Options, _positional: &mut Vec<String>) -> (r: Result<(), String>)
    requires
        1 <= arg.len(),
        *old(i) < args.len(),
    ensures
        match short_from(arg@.skip(1), 0, strings_view(args@), *old(i) as int, old(opts)@) {
            Ok((o2, i2)) => r is Ok && final(opts)@ == o2 && *final(i) == i2,
            Err(e) => is_err_text(r, e),
        },
        *old(i) <= *final(i) < args.len(),
        final(_positional)@ == old(_positional)@,
{
    let chars = slice_chars(arg, 1, arg.len());
    proof {
        assert(chars@ == arg@.skip(1));
    }
    let ghost sargs = strings_view(args@);
    let ghost i0 = *i;
    let ghost o0 = opts@;
    let mut j: usize = 0;
    while j < chars.len()
        invariant
            j <= chars.len(),
            *i == i0,
            i0 == *old(i),
            o0 == old(opts)@,
            i0 < args.len(),
            sargs == strings_view(args@),
            chars@ == arg@.skip(1),
            _positional@ == old(_positional)@,
            short_from(chars@, j as int, sargs, i0 as int, opts@) == short_from(chars@, 0, sargs, i0 as int, o0),
        decreases chars.len() - j,
    {
        let ghost before = opts@;
        proof {
            assert(short_from(chars@, j as int, sargs, i0 as int, before) == match short_step(chars@, j as int, sargs, i0 as int, before) {
                ShortStep::Next(o2) => short_from(chars@, j + 1, sargs, i0 as int, o2),
                ShortStep::Stop(r) => r,
            });
        }
        match short_option_at(&chars, j, args, i, opts) {
            Some(res) => {
                return res;
            },
            None => {},
        }
        j += 1;
    }
    Ok(())
}

/// Appends the file operands `files` to the patterns, each marked by a
/// leading `"\0FILE:"`.
fn mark_files(patterns: &mut Vec<String>, files: &Vec<String>)
    ensures
        strings_view(final(patterns)@) == strings_view(old(patterns)@) + marked_files(strings_view(files@)),
{
    let ghost base = strings_view(patterns@);
    let ghost fs = strings_view(files@);
    let mut k: usize = 0;
    while k < files.len()
        invariant
            k <= files.len(),
            fs == strings_view(files@),
            base == strings_view(old(patterns)@),
            strings_view(patterns@) == base + marked_files(fs.take(k as int)),
        decreases files.len() - k,
    {
        let marked = concat("\0FILE:", files[k].as_str());
        push_text(patterns, marked);
        proof {
            assert(marked_files(fs.take(k + 1)) =~= marked_files(fs.take(k as int)).push(marked@));
        }
        k += 1;
    }
    proof {
        assert(fs.take(files.len() as int) =~= fs);
    }
}

/// Adds the operands `positional` to the patterns.
fn add_operand_patterns(patterns: &mut Vec<String>, has_file: bool, positional: Vec<String>)
    ensures
        strings_view(final(patterns)@) == operand_patterns(strings_view(old(patterns)@), has_file, strings_view(positional@)),
{
    let mut positional = positional;
    if patterns.len() == 0 && !has_file && positional.len() > 0 {
        let ghost before = strings_view(positional@);
        let first = positional.remove(0);
        proof {
            assert(strings_view(positional@) =~= before.drop_first());
        }
        push_text(patterns, first);
    }
    mark_files(patterns, &positional);
}

/// Adds the operands `positional`: the first is the pattern unless one was
/// given, and the others are files.
fn add_operands(opts: &mut Options, positional: Vec<String>)
    ensures
        final(opts)@ == apply_operands(old(opts)@, strings_view(positional@)),
{
    let has_file = opts.texts.pattern_file.is_some();
    add_operand_patterns(&mut opts.texts.patterns, has_file, positional);
}

/// Reads `grep`'s command line (`args[0]` being the program's name):
/// options, then the pattern unless `-e`, `--regexp`, `-f` or `--file` gave
/// one, then the files, kept among the patterns with a leading `"\0FILE:"`.
pub fn parse_args(args: &[String]) -> (r: Result<Options, String>)
    ensures
        match parse_args_spec(strings_view(args@)) {
            Ok(o) => (match r {
                Ok(x) => x@ == o,
                Err(_) => false,
            }),
            Err(e) => is_err_text(r, e),
        },
{
    let ghost sargs = strings_view(args@);
    let mut opts = Options::new();
    opts.limits.color = ColorMode::Auto;
    opts.texts.group_separator = Some(String::from_str("--"));
    proof {
        reveal_strlit("--");
    }
    let mut positional: Vec<String> = Vec::new();
    let mut end_of_opts = false;
    let mut i: usize = 1;
    proof {
        assert(strings_view(positional@) =~= Seq::<Seq<char>>::empty());
    }
    while i < args.len()
        invariant
            1 <= i,
            sargs == strings_view(args@),
            args_from(sargs, i as int, opts@, strings_view(positional@), end_of_opts)
                == args_from(sargs, 1, initial_options(), Seq::empty(), false),
        decreases args.len() - i,
    {
        let arg = chars_of(args[i].as_str());
        proof {
            reveal_strlit("--");
            reveal_strlit("-");
        }
        if end_of_opts {
            push_text(&mut positional, args[i].clone());
            i += 1;
            continue;
        }
        if chars_eq_str(&arg, "--") {
            end_of_opts = true;
            i += 1;
            continue;
        }
        if starts_with_str(&arg, "--") {
            let rest = slice_chars(&arg, 2, arg.len());
            proof {
                assert(rest@ == arg@.skip(2));
            }
            match parse_long_option(&rest, args, &mut i, &mut opts) {
                Ok(()) => {},
                Err(e) => {
                    return Err(e);
                },
            }
            i += 1;
            continue;
        }
        if starts_with_str(&arg, "-") && arg.len() > 1 {
            match parse_short_options(&arg, args, &mut i, &mut opts, &mut positional) {
                Ok(()) => {},
                Err(e) => {
                    return Err(e);
                },
            }
            i += 1;
            continue;
        }
        push_text(&mut positional, args[i].clone());
        i += 1;
    }
    proof {
        assert(args_from(sargs, 1, initial_options(), Seq::empty(), false)
            == Ok::<(SOptions, Seq<Seq<char>>), Seq<char>>((opts@, strings_view(positional@))));
    }
    add_operands(&mut opts, positional);
    Ok(opts)
}

} // verus!
