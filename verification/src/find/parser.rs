//! The command line of `find`: global options, start paths, then an
//! expression of tests, actions and operators (`!`, `-a`, `-o`, `,` and
//! parentheses), with positional options accepted anywhere in it.
//!
//! Some primaries need facts from outside the program (a reference file's
//! time stamps, a user name's id, the instant a date names). The parser
//! reads them from tables that its caller fills; a fact that is not in its
//! table counts as not found, and the parser records the question so that
//! the caller can answer it and parse again.
use vstd::prelude::*;
use crate::text::{
    chars_of, chars_eq_str, starts_with_str, string_of, slice_chars, has_pair, contains_pair,
    parse_usize, parse_u32, parse_i32, parse_int_spec, is_prefix, to_lowercase, lowercase_of,
    push_char,
};
use crate::find::expression::{
    FileType, file_type_char, file_type_from_char, NumericComparison, numeric_comparison_spec, SizeComparison,
    size_comparison_spec, PermMode, perm_mode_spec, Timestamp, TimeType, ExecType, Action,
    Test, Expression, SAction, STest, SExpr, strings_view,
};
use crate::find::messages;
use crate::matching::{glob_check, glob_error_of, regex_check, regex_error_of};

verus! {

/// Which symbolic links the walk follows.
#[derive(Debug, Clone, Copy, PartialEq, Eq, Structural)]
pub enum FollowSymlinks {
    Never,
    Commandline,
    Always,
}

/// Options that apply to the whole walk.
#[derive(Debug, Clone, Copy, PartialEq, Eq, Structural)]
pub struct GlobalOptions {
    pub follow_symlinks: FollowSymlinks,
    pub max_depth: Option<usize>,
    pub min_depth: Option<usize>,
    pub depth_first: bool,
    pub xdev: bool,
}

/// The options before any is given.
pub open spec fn default_options() -> GlobalOptions {
    GlobalOptions {
        follow_symlinks: FollowSymlinks::Never,
        max_depth: None,
        min_depth: None,
        depth_first: false,
        xdev: false,
    }
}

impl Default for GlobalOptions {
    fn default() -> (r: Self)
        ensures
            r == default_options(),
    {
        GlobalOptions {
            follow_symlinks: FollowSymlinks::Never,
            max_depth: None,
            min_depth: None,
            depth_first: false,
            xdev: false,
        }
    }
}

/// The dialect of `-regex` patterns that `-regextype` selects.
#[derive(Debug, Clone, Copy, PartialEq, Eq, Structural)]
pub enum RegexSyntax {
    Extended,
    Basic,
    Emacs,
}

/// The time stamps of a reference file.
#[derive(Debug, Clone, Copy, PartialEq, Eq, Structural)]
pub struct RefTimes {
    pub atime: Option<Timestamp>,
    pub mtime: Option<Timestamp>,
    pub ctime: Timestamp,
    pub btime: Option<Timestamp>,
}

/// A fact that the parser needs from outside.
#[derive(Debug, Clone)]
pub enum Query {
    /// The time stamps of a file (for `-newer` and its kin).
    FileTimes(String),
    /// The device and inode of a file (for `-samefile`).
    FileIds(String),
    /// The id of a user name.
    User(String),
    /// The id of a group name.
    Group(String),
    /// The instant that a date and time names (for `-newerXt`).
    DateTime(String),
}

/// A query with its string as a character sequence.
pub enum SQuery {
    FileTimes(Seq<char>),
    FileIds(Seq<char>),
    User(Seq<char>),
    Group(Seq<char>),
    DateTime(Seq<char>),
}

impl View for Query {
    type V = SQuery;

    open spec fn view(&self) -> SQuery {
        match self {
            Query::FileTimes(s) => SQuery::FileTimes(s@),
            Query::FileIds(s) => SQuery::FileIds(s@),
            Query::User(s) => SQuery::User(s@),
            Query::Group(s) => SQuery::Group(s@),
            Query::DateTime(s) => SQuery::DateTime(s@),
        }
    }
}

/// What a successful parse yields.
pub struct ParseResult {
    pub paths: Vec<String>,
    pub expression: Option<Expression>,
    pub global_options: GlobalOptions,
}

/// The parser of a `find` command line.
pub struct Parser {
    args: Vec<String>,
    pos: usize,
    options: GlobalOptions,
    daystart: bool,
    regex_syntax: RegexSyntax,
    umask: u32,
    file_times: Vec<(String, Option<RefTimes>)>,
    file_ids: Vec<(String, Option<(u64, u64)>)>,
    users: Vec<(String, Option<u32>)>,
    groups: Vec<(String, Option<u32>)>,
    datetimes: Vec<(String, Option<Timestamp>)>,
    missing: Option<Query>,
}

// ---------------------------------------------------------------------------
// The grammar, as functions of the arguments and the parser's state
// ---------------------------------------------------------------------------

/// What does not change while parsing: the arguments, the umask and the
/// answers to queries.
pub struct PCtx {
    pub args: Seq<Seq<char>>,
    pub umask: u32,
    pub file_times: Seq<(String, Option<RefTimes>)>,
    pub file_ids: Seq<(String, Option<(u64, u64)>)>,
    pub users: Seq<(String, Option<u32>)>,
    pub groups: Seq<(String, Option<u32>)>,
    pub datetimes: Seq<(String, Option<Timestamp>)>,
}

/// What changes while parsing.
pub struct PState {
    pub pos: int,
    pub options: GlobalOptions,
    pub daystart: bool,
    pub regex_syntax: RegexSyntax,
}

/// A parse error: its message and, when it came from a fact that was not
/// in its table, the question.
pub struct PErr {
    pub msg: Seq<char>,
    pub missing: Option<SQuery>,
}

/// The outcome of a step of the grammar.
pub type PR<T> = Result<(T, PState), PErr>;

pub closed spec fn ctx_of(p: Parser) -> PCtx {
    PCtx {
        args: strings_view(p.args@),
        umask: p.umask,
        file_times: p.file_times@,
        file_ids: p.file_ids@,
        users: p.users@,
        groups: p.groups@,
        datetimes: p.datetimes@,
    }
}

pub closed spec fn state_of(p: Parser) -> PState {
    PState { pos: p.pos as int, options: p.options, daystart: p.daystart, regex_syntax: p.regex_syntax }
}

pub open spec fn query_view(q: Option<Query>) -> Option<SQuery> {
    match q {
        Some(q) => Some(q@),
        None => None,
    }
}

/// The exec result `r`, with the parser left as `p`, is the outcome `sp`.
pub closed spec fn outcome(r: Result<Expression, String>, p: Parser, sp: PR<SExpr>) -> bool {
    match sp {
        Ok((e, st)) => match r {
            Ok(x) => x@ == e && state_of(p) == st && p.missing is None,
            Err(_) => false,
        },
        Err(pe) => match r {
            Ok(_) => false,
            Err(m) => m@ == pe.msg && query_view(p.missing) == pe.missing,
        },
    }
}

pub open spec fn perr(msg: Seq<char>) -> PErr {
    PErr { msg, missing: None }
}

pub open spec fn at(st: PState, pos: int) -> PState {
    PState { pos, ..st }
}

/// The argument under the cursor.
pub open spec fn cur(c: PCtx, st: PState) -> Option<Seq<char>> {
    if 0 <= st.pos < c.args.len() {
        Some(c.args[st.pos])
    } else {
        None
    }
}

/// The argument after the cursor, which an option takes as its value.
pub open spec fn expect(c: PCtx, st: PState, opt: Seq<char>) -> Result<Seq<char>, PErr> {
    if 0 <= st.pos + 1 < c.args.len() {
        Ok(c.args[st.pos + 1])
    } else {
        Err(perr(messages::err_missing_argument_text(opt)))
    }
}

/// The first answer for `key` in a table; `None` when the table has none.
pub open spec fn find_entry<T>(tbl: Seq<(String, T)>, key: Seq<char>) -> Option<T>
    decreases tbl.len(),
{
    if tbl.len() == 0 {
        None
    } else if tbl[0].0@ == key {
        Some(tbl[0].1)
    } else {
        find_entry(tbl.drop_first(), key)
    }
}

pub open spec fn is_open_paren(a: Seq<char>) -> bool {
    a == "("@ || a == "\\("@
}

pub open spec fn is_close_paren(a: Seq<char>) -> bool {
    a == ")"@ || a == "\\)"@
}

pub open spec fn is_not_operator(a: Seq<char>) -> bool {
    a == "!"@ || a == "\\!"@
}

pub open spec fn is_list_separator(a: Seq<char>) -> bool {
    a == ","@
}

pub open spec fn is_exec_terminator(a: Seq<char>) -> bool {
    a == ";"@ || a == "\\;"@
}

pub open spec fn is_or_or_list_or_close(a: Seq<char>) -> bool {
    a == "-o"@ || a == "-or"@ || is_list_separator(a) || is_close_paren(a)
}

/// The letter of a time stamp in `-newerXY`.
pub open spec fn time_file_type_from_char(c: char) -> Option<TimeType> {
    if c == 'a' {
        Some(TimeType::Access)
    } else if c == 'c' {
        Some(TimeType::Change)
    } else if c == 'm' {
        Some(TimeType::Modify)
    } else if c == 'B' {
        Some(TimeType::Birth)
    } else {
        None
    }
}

/// The dialect that a `-regextype` name selects.
pub open spec fn regextype_of(name: Seq<char>) -> Option<RegexSyntax> {
    if name == "emacs"@ || name == "findutils-default"@ {
        Some(RegexSyntax::Emacs)
    } else if name == "posix-basic"@ || name == "posix-minimal-basic"@ || name == "ed"@
        || name == "sed"@ || name == "grep"@ {
        Some(RegexSyntax::Basic)
    } else if name == "posix-extended"@ || name == "posix-egrep"@ || name == "egrep"@
        || name == "posix-awk"@ || name == "awk"@ || name == "gnu-awk"@ {
        Some(RegexSyntax::Extended)
    } else {
        None
    }
}

/// `s[i..]` of a BRE or Emacs pattern rewritten in the syntax of the
/// `regex` crate: the escaped operators of the dialect become operators,
/// and the characters that are literal in the dialect are escaped.
pub open spec fn convert_from(s: Seq<char>, i: int, basic: bool) -> Seq<char>
    decreases s.len() - i,
{
    if i < 0 || i >= s.len() {
        Seq::empty()
    } else {
        let c = s[i];
        if c == '\\' {
            if i + 1 < s.len() {
                let n = s[i + 1];
                let promote = n == '(' || n == ')' || n == '|' || (basic && (n == '{' || n == '}'
                    || n == '+' || n == '?'));
                (if promote { seq![n] } else { seq!['\\', n] }) + convert_from(s, i + 2, basic)
            } else {
                seq!['\\']
            }
        } else if c == '(' || c == ')' || c == '|' || c == '{' || c == '}' {
            seq!['\\', c] + convert_from(s, i + 1, basic)
        } else if basic && (c == '+' || c == '?') {
            seq!['\\', c] + convert_from(s, i + 1, basic)
        } else {
            seq![c] + convert_from(s, i + 1, basic)
        }
    }
}

/// A pattern of the dialect in the syntax of the `regex` crate.
pub open spec fn convert_regex_spec(s: Seq<char>, syntax: RegexSyntax) -> Seq<char> {
    if syntax == RegexSyntax::Extended {
        s
    } else {
        convert_from(s, 0, syntax == RegexSyntax::Basic)
    }
}

/// The primaries and positional options, by name.
#[derive(Debug, Clone, Copy, PartialEq, Eq, Structural)]
pub enum Prim {
    MaxDepth,
    MinDepth,
    Depth,
    Xdev,
    Follow,
    Daystart,
    Ignored,
    Regextype,
    Glob { which: u8, ci: bool },
    RegexP { ci: bool },
    TypeP { x: bool },
    Fstype,
    Size,
    Empty,
    Time { tt: TimeType, minutes: bool },
    Used,
    Newer,
    ANewer { x: TimeType },
    NewerXY,
    User,
    Group,
    Uid,
    Gid,
    NoUser,
    NoGroup,
    Perm,
    Readable,
    Writable,
    Executable,
    Links,
    Inum,
    Samefile,
    True,
    False,
    Print,
    Print0,
    FPrint,
    FPrint0,
    Printf,
    FPrintf,
    Ls,
    FLs,
    Exec { in_dir: bool },
    OkP { in_dir: bool },
    Delete,
    Prune,
    Quit,
    Unknown,
}

/// What an argument names.
pub open spec fn classify(a: Seq<char>) -> Prim {
    if a == "-maxdepth"@ { Prim::MaxDepth }
    else if a == "-mindepth"@ { Prim::MinDepth }
    else if a == "-depth"@ || a == "-d"@ { Prim::Depth }
    else if a == "-xdev"@ || a == "-mount"@ { Prim::Xdev }
    else if a == "-follow"@ { Prim::Follow }
    else if a == "-daystart"@ { Prim::Daystart }
    else if a == "-noleaf"@ || a == "-ignore_readdir_race"@ || a == "-noignore_readdir_race"@
        || a == "-warn"@ || a == "-nowarn"@ { Prim::Ignored }
    else if a == "-regextype"@ { Prim::Regextype }
    else if a == "-name"@ { Prim::Glob { which: 0, ci: false } }
    else if a == "-iname"@ { Prim::Glob { which: 0, ci: true } }
    else if a == "-path"@ || a == "-wholename"@ { Prim::Glob { which: 1, ci: false } }
    else if a == "-ipath"@ || a == "-iwholename"@ { Prim::Glob { which: 1, ci: true } }
    else if a == "-lname"@ { Prim::Glob { which: 2, ci: false } }
    else if a == "-ilname"@ { Prim::Glob { which: 2, ci: true } }
    else if a == "-regex"@ { Prim::RegexP { ci: false } }
    else if a == "-iregex"@ { Prim::RegexP { ci: true } }
    else if a == "-type"@ { Prim::TypeP { x: false } }
    else if a == "-xtype"@ { Prim::TypeP { x: true } }
    else if a == "-fstype"@ { Prim::Fstype }
    else if a == "-size"@ { Prim::Size }
    else if a == "-empty"@ { Prim::Empty }
    else if a == "-atime"@ { Prim::Time { tt: TimeType::Access, minutes: false } }
    else if a == "-ctime"@ { Prim::Time { tt: TimeType::Change, minutes: false } }
    else if a == "-mtime"@ { Prim::Time { tt: TimeType::Modify, minutes: false } }
    else if a == "-amin"@ { Prim::Time { tt: TimeType::Access, minutes: true } }
    else if a == "-cmin"@ { Prim::Time { tt: TimeType::Change, minutes: true } }
    else if a == "-mmin"@ { Prim::Time { tt: TimeType::Modify, minutes: true } }
    else if a == "-used"@ { Prim::Used }
    else if a == "-newer"@ { Prim::Newer }
    else if a == "-anewer"@ { Prim::ANewer { x: TimeType::Access } }
    else if a == "-cnewer"@ { Prim::ANewer { x: TimeType::Change } }
    else if is_prefix("-newer"@, a) && a.len() == 8 { Prim::NewerXY }
    else if a == "-user"@ { Prim::User }
    else if a == "-group"@ { Prim::Group }
    else if a == "-uid"@ { Prim::Uid }
    else if a == "-gid"@ { Prim::Gid }
    else if a == "-nouser"@ { Prim::NoUser }
    else if a == "-nogroup"@ { Prim::NoGroup }
    else if a == "-perm"@ { Prim::Perm }
    else if a == "-readable"@ { Prim::Readable }
    else if a == "-writable"@ { Prim::Writable }
    else if a == "-executable"@ { Prim::Executable }
    else if a == "-links"@ { Prim::Links }
    else if a == "-inum"@ { Prim::Inum }
    else if a == "-samefile"@ { Prim::Samefile }
    else if a == "-true"@ { Prim::True }
    else if a == "-false"@ { Prim::False }
    else if a == "-print"@ { Prim::Print }
    else if a == "-print0"@ { Prim::Print0 }
    else if a == "-fprint"@ { Prim::FPrint }
    else if a == "-fprint0"@ { Prim::FPrint0 }
    else if a == "-printf"@ { Prim::Printf }
    else if a == "-fprintf"@ { Prim::FPrintf }
    else if a == "-ls"@ { Prim::Ls }
    else if a == "-fls"@ { Prim::FLs }
    else if a == "-exec"@ { Prim::Exec { in_dir: false } }
    else if a == "-execdir"@ { Prim::Exec { in_dir: true } }
    else if a == "-ok"@ { Prim::OkP { in_dir: false } }
    else if a == "-okdir"@ { Prim::OkP { in_dir: true } }
    else if a == "-delete"@ { Prim::Delete }
    else if a == "-prune"@ { Prim::Prune }
    else if a == "-quit"@ { Prim::Quit }
    else { Prim::Unknown }
}

pub open spec fn is_option_kind(k: Prim) -> bool {
    k == Prim::MaxDepth || k == Prim::MinDepth || k == Prim::Depth || k == Prim::Xdev
        || k == Prim::Follow || k == Prim::Daystart || k == Prim::Ignored || k == Prim::Regextype
}

/// A positional option at the cursor, named `a`: the state after it.
pub open spec fn p_option(c: PCtx, st: PState, a: Seq<char>, k: Prim) -> Result<PState, PErr> {
    let o = st.options;
    if k == Prim::MaxDepth || k == Prim::MinDepth {
        match expect(c, st, a) {
            Err(e) => Err(e),
            Ok(n) => match parse_int_spec(n, 0, usize::MAX as int) {
                Some(v) => Ok(PState {
                    pos: st.pos + 2,
                    options: if k == Prim::MaxDepth {
                        GlobalOptions { max_depth: Some(v as usize), ..o }
                    } else {
                        GlobalOptions { min_depth: Some(v as usize), ..o }
                    },
                    ..st
                }),
                None => Err(perr(messages::err_invalid_argument_text(a, n))),
            },
        }
    } else if k == Prim::Depth {
        Ok(PState { pos: st.pos + 1, options: GlobalOptions { depth_first: true, ..o }, ..st })
    } else if k == Prim::Xdev {
        Ok(PState { pos: st.pos + 1, options: GlobalOptions { xdev: true, ..o }, ..st })
    } else if k == Prim::Follow {
        Ok(PState { pos: st.pos + 1, options: GlobalOptions { follow_symlinks: FollowSymlinks::Always, ..o }, ..st })
    } else if k == Prim::Daystart {
        Ok(PState { pos: st.pos + 1, daystart: true, ..st })
    } else if k == Prim::Regextype {
        match expect(c, st, a) {
            Err(e) => Err(e),
            Ok(name) => match regextype_of(name) {
                Some(sx) => Ok(PState { pos: st.pos + 2, regex_syntax: sx, ..st }),
                None => Err(perr(messages::err_invalid_regextype_text(name))),
            },
        }
    } else {
        Ok(at(st, st.pos + 1))
    }
}

/// The primaries that take no argument.
pub open spec fn simple_primary(k: Prim) -> Option<SExpr> {
    if k == Prim::Empty { Some(SExpr::Test(STest::Empty)) }
    else if k == Prim::NoUser { Some(SExpr::Test(STest::NoUser)) }
    else if k == Prim::NoGroup { Some(SExpr::Test(STest::NoGroup)) }
    else if k == Prim::Readable { Some(SExpr::Test(STest::Readable)) }
    else if k == Prim::Writable { Some(SExpr::Test(STest::Writable)) }
    else if k == Prim::Executable { Some(SExpr::Test(STest::Executable)) }
    else if k == Prim::True { Some(SExpr::Test(STest::True)) }
    else if k == Prim::False { Some(SExpr::Test(STest::False)) }
    else if k == Prim::Print { Some(SExpr::Action(SAction::Print)) }
    else if k == Prim::Print0 { Some(SExpr::Action(SAction::Print0)) }
    else if k == Prim::Ls { Some(SExpr::Action(SAction::Ls)) }
    else if k == Prim::Delete { Some(SExpr::Action(SAction::Delete)) }
    else if k == Prim::Prune { Some(SExpr::Action(SAction::Prune)) }
    else if k == Prim::Quit { Some(SExpr::Action(SAction::Quit)) }
    else { None }
}

/// The primaries that take one argument and keep it as it is.
pub open spec fn string_primary(k: Prim, s: Seq<char>) -> Option<SExpr> {
    if k == Prim::Fstype { Some(SExpr::Test(STest::Fstype(s))) }
    else if k == Prim::FPrint { Some(SExpr::Action(SAction::FPrint(s))) }
    else if k == Prim::FPrint0 { Some(SExpr::Action(SAction::FPrint0(s))) }
    else if k == Prim::Printf { Some(SExpr::Action(SAction::Printf(s))) }
    else if k == Prim::FLs { Some(SExpr::Action(SAction::FLs(s))) }
    else { None }
}

pub open spec fn is_numeric_kind(k: Prim) -> bool {
    k == Prim::Uid || k == Prim::Gid || k == Prim::Links || k == Prim::Inum || k == Prim::Used
        || k is Time
}

/// A numeric test with its comparison.
pub open spec fn numeric_primary(k: Prim, nc: NumericComparison, daystart: bool) -> SExpr {
    match k {
        Prim::Uid => SExpr::Test(STest::Uid(nc)),
        Prim::Gid => SExpr::Test(STest::Gid(nc)),
        Prim::Links => SExpr::Test(STest::Links(nc)),
        Prim::Inum => SExpr::Test(STest::Inum(nc)),
        Prim::Time { tt, minutes } => SExpr::Test(STest::Time { time_type: tt, comparison: nc, minutes, daystart }),
        _ => SExpr::Test(STest::Used(nc)),
    }
}

/// The glob test of a kind (name, path or link target).
pub open spec fn glob_test(which: u8, pattern: Seq<char>, ci: bool) -> STest {
    if which == 0 {
        STest::Name { pattern, case_insensitive: ci }
    } else if which == 1 {
        STest::Path { pattern, case_insensitive: ci }
    } else {
        STest::Lname { pattern, case_insensitive: ci }
    }
}

/// The file types that a `-type` argument lists: single letters separated
/// by commas.
pub open spec fn type_list(s: Seq<char>) -> Option<Seq<FileType>>
    decreases s.len(),
{
    if s.len() == 0 {
        None
    } else if s.len() == 1 {
        match file_type_from_char(s[0]) {
            Some(t) => Some(seq![t]),
            None => None,
        }
    } else if s.len() >= 3 && s[s.len() - 2] == ',' {
        match (type_list(s.subrange(0, s.len() - 2)), file_type_from_char(s.last())) {
            (Some(ts), Some(t)) => Some(ts.push(t)),
            _ => None,
        }
    } else {
        None
    }
}

pub open spec fn type_test(t: FileType, x: bool) -> SExpr {
    if x { SExpr::Test(STest::Xtype(t)) } else { SExpr::Test(STest::Type(t)) }
}

/// The type tests of a list joined by `-o`, from the left.
pub open spec fn or_chain(ts: Seq<FileType>, x: bool) -> SExpr
    decreases ts.len(),
{
    if ts.len() <= 1 {
        type_test(ts[0], x)
    } else {
        SExpr::Or(Box::new(or_chain(ts.drop_last(), x)), Box::new(type_test(ts.last(), x)))
    }
}

/// The epoch, which a missing time stamp counts as.
pub open spec fn epoch() -> Timestamp {
    Timestamp { secs: 0, nanos: 0 }
}

/// The command of `-exec` and `-ok` from argument `i` on: the words up to
/// `;` (or `\;`), or up to a `+` that follows a word `{}`.
pub open spec fn exec_collect(c: PCtx, i: int, cmd: Seq<Seq<char>>) -> Result<(Seq<Seq<char>>, ExecType, int), PErr>
    decreases c.args.len() - i,
{
    if i < 0 || i >= c.args.len() {
        Err(perr(messages::err_missing_exec_terminator_text()))
    } else {
        let a = c.args[i];
        if is_exec_terminator(a) {
            Ok((cmd, ExecType::Each, i + 1))
        } else if a == "+"@ {
            if cmd.len() > 0 && cmd.last() == "{}"@ {
                Ok((cmd, ExecType::Batch, i + 1))
            } else if cmd.len() > 0 && contains_pair(cmd.last(), '{', '}') {
                Err(perr(messages::err_exec_batch_partial_placeholder_text(cmd.last())))
            } else {
                exec_collect(c, i + 1, cmd.push("+"@))
            }
        } else {
            exec_collect(c, i + 1, cmd.push(a))
        }
    }
}

/// A primary at the cursor.
pub open spec fn p_primary(c: PCtx, st: PState) -> PR<SExpr> {
    match cur(c, st) {
        None => Err(perr(messages::err_expression_required_text())),
        Some(a) => {
            let k = classify(a);
            let next2 = at(st, st.pos + 2);
            if is_option_kind(k) {
                match p_option(c, st, a, k) {
                    Ok(st2) => Ok((SExpr::Test(STest::True), st2)),
                    Err(e) => Err(e),
                }
            } else if simple_primary(k) is Some {
                Ok((simple_primary(k)->0, at(st, st.pos + 1)))
            } else if k == Prim::Fstype || k == Prim::FPrint || k == Prim::FPrint0 || k == Prim::Printf
                || k == Prim::FLs {
                match expect(c, st, a) {
                    Err(e) => Err(e),
                    Ok(s) => Ok((string_primary(k, s)->0, next2)),
                }
            } else if is_numeric_kind(k) {
                match expect(c, st, a) {
                    Err(e) => Err(e),
                    Ok(n) => match numeric_comparison_spec(n) {
                        Some(nc) => Ok((numeric_primary(k, nc, st.daystart), next2)),
                        None => Err(perr(
                            if k == Prim::Used || k is Time {
                                messages::err_invalid_time_text(n)
                            } else {
                                messages::err_invalid_argument_text(a, n)
                            },
                        )),
                    },
                }
            } else if k == Prim::Size {
                match expect(c, st, a) {
                    Err(e) => Err(e),
                    Ok(s) => match size_comparison_spec(s) {
                        Some(sc) => Ok((SExpr::Test(STest::Size(sc)), next2)),
                        None => Err(perr(messages::err_invalid_size_text(s))),
                    },
                }
            } else if k == Prim::Perm {
                match expect(c, st, a) {
                    Err(e) => Err(e),
                    Ok(s) => match perm_mode_spec(s, c.umask) {
                        Some(pm) => Ok((SExpr::Test(STest::Perm(pm)), next2)),
                        None => Err(perr(messages::err_invalid_perm_text(s))),
                    },
                }
            } else if k is Glob {
                match expect(c, st, a) {
                    Err(e) => Err(e),
                    Ok(ps) => {
                        let ci = k->Glob_ci;
                        let text = if ci { lowercase_of(ps) } else { ps };
                        match glob_error_of(text) {
                            Some(m) => Err(perr(messages::err_invalid_argument_text(a, m))),
                            None => Ok((SExpr::Test(glob_test(k->Glob_which, text, ci)), next2)),
                        }
                    },
                }
            } else if k is RegexP {
                match expect(c, st, a) {
                    Err(e) => Err(e),
                    Ok(rs) => {
                        let anchored = "^(?:"@ + convert_regex_spec(rs, st.regex_syntax) + ")$"@;
                        match regex_error_of(anchored, k->RegexP_ci) {
                            Some(m) => Err(perr(messages::err_invalid_regex_text(rs, m))),
                            None => Ok((SExpr::Test(STest::Regex { pattern: anchored, case_insensitive: k->RegexP_ci }), next2)),
                        }
                    },
                }
            } else if k is TypeP {
                match expect(c, st, a) {
                    Err(e) => Err(e),
                    Ok(ts) => match type_list(ts) {
                        Some(l) => Ok((or_chain(l, k->TypeP_x), next2)),
                        None => Err(perr(messages::err_invalid_type_text(ts))),
                    },
                }
            } else if k == Prim::Newer || k is ANewer {
                match expect(c, st, a) {
                    Err(e) => Err(e),
                    Ok(f) => match find_entry(c.file_times, f) {
                        None => Err(PErr { msg: messages::err_file_not_found_text(f), missing: Some(SQuery::FileTimes(f)) }),
                        Some(None) => Err(perr(messages::err_file_not_found_text(f))),
                        Some(Some(t)) => match t.mtime {
                            None => Err(perr(messages::err_file_not_found_text(f))),
                            Some(m) => if k == Prim::Newer {
                                Ok((SExpr::Test(STest::Newer { reference_time: m }), next2))
                            } else {
                                Ok((SExpr::Test(STest::NewerXY { x: k->ANewer_x, y: TimeType::Modify, reference: m }), next2))
                            },
                        },
                    },
                }
            } else if k == Prim::NewerXY {
                p_newer_xy(c, st, a)
            } else if k == Prim::User || k == Prim::Group {
                match expect(c, st, a) {
                    Err(e) => Err(e),
                    Ok(name) => match parse_int_spec(name, 0, u32::MAX as int) {
                        Some(id) => Ok((SExpr::Test(if k == Prim::User { STest::User(id as u32) } else { STest::Group(id as u32) }), next2)),
                        None => {
                            let found = if k == Prim::User { find_entry(c.users, name) } else { find_entry(c.groups, name) };
                            let msg = if k == Prim::User {
                                messages::err_user_not_found_text(name)
                            } else {
                                messages::err_group_not_found_text(name)
                            };
                            match found {
                                None => Err(PErr { msg, missing: Some(if k == Prim::User { SQuery::User(name) } else { SQuery::Group(name) }) }),
                                Some(None) => Err(perr(msg)),
                                Some(Some(id)) => Ok((SExpr::Test(if k == Prim::User { STest::User(id) } else { STest::Group(id) }), next2)),
                            }
                        },
                    },
                }
            } else if k == Prim::Samefile {
                match expect(c, st, a) {
                    Err(e) => Err(e),
                    Ok(f) => match find_entry(c.file_ids, f) {
                        None => Err(PErr { msg: messages::err_file_not_found_text(f), missing: Some(SQuery::FileIds(f)) }),
                        Some(None) => Err(perr(messages::err_file_not_found_text(f))),
                        Some(Some((dev, ino))) => Ok((SExpr::Test(STest::Samefile { dev, ino }), next2)),
                    },
                }
            } else if k == Prim::FPrintf {
                match expect(c, st, a) {
                    Err(e) => Err(e),
                    Ok(f) => if st.pos + 2 < c.args.len() {
                        Ok((SExpr::Action(SAction::FPrintf(f, c.args[st.pos + 2])), at(st, st.pos + 3)))
                    } else {
                        Err(perr(messages::err_missing_argument_text("-fprintf"@)))
                    },
                }
            } else if k is Exec || k is OkP {
                match exec_collect(c, st.pos + 1, Seq::empty()) {
                    Err(e) => Err(e),
                    Ok((cmd, et, next)) => if cmd.len() == 0 {
                        Err(perr(messages::err_missing_argument_text(a)))
                    } else if k is Exec {
                        Ok((SExpr::Action(SAction::Exec { command: cmd, exec_type: et, in_dir: k->Exec_in_dir }), at(st, next)))
                    } else if et == ExecType::Batch {
                        Err(perr(messages::err_ok_no_batch_text(a)))
                    } else {
                        Ok((SExpr::Action(SAction::OkPrompt { command: cmd, in_dir: k->OkP_in_dir }), at(st, next)))
                    },
                }
            } else {
                Err(perr(messages::err_unknown_option_text(a)))
            }
        },
    }
}

/// `-newerXY` at the cursor, named `a` (eight characters).
pub open spec fn p_newer_xy(c: PCtx, st: PState, a: Seq<char>) -> PR<SExpr> {
    let next2 = at(st, st.pos + 2);
    match time_file_type_from_char(a[6]) {
        None => Err(perr(messages::err_unknown_option_text(a))),
        Some(x) => if a[7] == 't' {
            match expect(c, st, a) {
                Err(e) => Err(e),
                Ok(ts) => match find_entry(c.datetimes, ts) {
                    None => Err(PErr { msg: messages::err_invalid_argument_text(a, ts), missing: Some(SQuery::DateTime(ts)) }),
                    Some(None) => Err(perr(messages::err_invalid_argument_text(a, ts))),
                    Some(Some(t)) => Ok((SExpr::Test(STest::NewerXY { x, y: TimeType::Modify, reference: t }), next2)),
                },
            }
        } else {
            match time_file_type_from_char(a[7]) {
                None => Err(perr(messages::err_unknown_option_text(a))),
                Some(y) => match expect(c, st, a) {
                    Err(e) => Err(e),
                    Ok(f) => match find_entry(c.file_times, f) {
                        None => Err(PErr { msg: messages::err_file_not_found_text(f), missing: Some(SQuery::FileTimes(f)) }),
                        Some(None) => Err(perr(messages::err_file_not_found_text(f))),
                        Some(Some(t)) => {
                            let reference = match y {
                                TimeType::Access => Some(match t.atime { Some(v) => v, None => epoch() }),
                                TimeType::Change => Some(t.ctime),
                                TimeType::Modify => Some(match t.mtime { Some(v) => v, None => epoch() }),
                                TimeType::Birth => t.btime,
                            };
                            match reference {
                                Some(r) => Ok((SExpr::Test(STest::NewerXY { x, y, reference: r }), next2)),
                                None => Err(perr(messages::err_birth_time_unsupported_text(f))),
                            }
                        },
                    },
                },
            }
        },
    }
}

pub open spec fn advanced(c: PCtx, st: PState, s2: PState) -> bool {
    st.pos < s2.pos <= c.args.len()
}

/// `!`/`-not`, a parenthesised expression, or a primary.
pub open spec fn p_unary(c: PCtx, st: PState) -> PR<SExpr>
    decreases c.args.len() - st.pos, 1nat,
{
    match cur(c, st) {
        None => p_primary(c, st),
        Some(a) => if is_not_operator(a) || a == "-not"@ {
            match p_unary(c, at(st, st.pos + 1)) {
                Err(e) => Err(e),
                Ok((e, s2)) => Ok((SExpr::Not(Box::new(e)), s2)),
            }
        } else if is_open_paren(a) {
            match p_or(c, at(st, st.pos + 1)) {
                Err(e) => Err(e),
                Ok((e, s2)) => match cur(c, s2) {
                    Some(b) => if is_close_paren(b) {
                        Ok((e, at(s2, s2.pos + 1)))
                    } else {
                        Err(perr(messages::err_unmatched_paren_text()))
                    },
                    None => Err(perr(messages::err_unmatched_paren_text())),
                },
            }
        } else {
            p_primary(c, st)
        },
    }
}

/// What follows the left operand of an AND chain: `-a` or an implicit AND
/// before `!`, `(` or an option-like word.
pub open spec fn p_and_rest(c: PCtx, st: PState, left: SExpr) -> PR<SExpr>
    decreases c.args.len() - st.pos, 2nat,
{
    match cur(c, st) {
        None => Ok((left, st)),
        Some(a) => if a == "-a"@ || a == "-and"@ {
            match p_unary(c, at(st, st.pos + 1)) {
                Err(e) => Err(e),
                Ok((r, s2)) => {
                    let e = SExpr::And(Box::new(left), Box::new(r));
                    if advanced(c, st, s2) { p_and_rest(c, s2, e) } else { Ok((e, s2)) }
                },
            }
        } else if !is_or_or_list_or_close(a) && a.len() != 0 {
            if !is_not_operator(a) && !is_open_paren(a) && !is_prefix("-"@, a) {
                Ok((left, st))
            } else {
                match p_unary(c, st) {
                    Err(e) => Err(e),
                    Ok((r, s2)) => {
                        let e = SExpr::And(Box::new(left), Box::new(r));
                        if advanced(c, st, s2) { p_and_rest(c, s2, e) } else { Ok((e, s2)) }
                    },
                }
            }
        } else {
            Ok((left, st))
        },
    }
}

/// An AND chain.
pub open spec fn p_and(c: PCtx, st: PState) -> PR<SExpr>
    decreases c.args.len() - st.pos, 3nat,
{
    match p_unary(c, st) {
        Err(e) => Err(e),
        Ok((l, s1)) => if advanced(c, st, s1) { p_and_rest(c, s1, l) } else { Ok((l, s1)) },
    }
}

/// An OR and list chain.
pub open spec fn p_or(c: PCtx, st: PState) -> PR<SExpr>
    decreases c.args.len() - st.pos, 4nat,
{
    match p_and(c, st) {
        Err(e) => Err(e),
        Ok((l, s1)) => if advanced(c, st, s1) { p_or_rest(c, s1, l) } else { Ok((l, s1)) },
    }
}

/// What follows the left operand of an OR chain: `-o`/`-or` or `,`.
pub open spec fn p_or_rest(c: PCtx, st: PState, left: SExpr) -> PR<SExpr>
    decreases c.args.len() - st.pos, 5nat,
{
    match cur(c, st) {
        None => Ok((left, st)),
        Some(a) => if a == "-o"@ || a == "-or"@ || is_list_separator(a) {
            match p_and(c, at(st, st.pos + 1)) {
                Err(e) => Err(e),
                Ok((r, s2)) => {
                    let e = if is_list_separator(a) {
                        SExpr::List(Box::new(left), Box::new(r))
                    } else {
                        SExpr::Or(Box::new(left), Box::new(r))
                    };
                    if advanced(c, st, s2) { p_or_rest(c, s2, e) } else { Ok((e, s2)) }
                },
            }
        } else {
            Ok((left, st))
        },
    }
}

pub proof fn lemma_type_list_shape(s: Seq<char>)
    ensures
        type_list(s) is Some <==> (s.len() % 2 == 1
            && (forall|i: int| 0 <= i < s.len() && i % 2 == 0 ==> (#[trigger] file_type_from_char(s[i])) is Some)
            && (forall|i: int| 0 <= i < s.len() && i % 2 == 1 ==> #[trigger] s[i] == ',')),
        type_list(s) is Some ==> type_list(s)->0.len() == (s.len() + 1) / 2
            && forall|j: int| 0 <= j < (s.len() + 1) / 2 ==> Some(#[trigger] type_list(s)->0[j]) == file_type_from_char(s[2 * j]),
    decreases s.len(),
{
    if s.len() >= 3 && s[s.len() - 2] == ',' {
        let p = s.subrange(0, s.len() - 2);
        lemma_type_list_shape(p);
        assert forall|i: int| 0 <= i < p.len() implies p[i] == s[i] by {}
        if type_list(s) is Some {
            let ts = type_list(s)->0;
            assert forall|j: int| 0 <= j < (s.len() + 1) / 2 implies Some(#[trigger] ts[j]) == file_type_from_char(s[2 * j]) by {
                if j < (s.len() + 1) / 2 - 1 {
                    assert(p[2 * j] == s[2 * j]);
                }
            }
        }
        if s.len() % 2 == 1
            && (forall|i: int| 0 <= i < s.len() && i % 2 == 0 ==> (#[trigger] file_type_from_char(s[i])) is Some)
            && (forall|i: int| 0 <= i < s.len() && i % 2 == 1 ==> #[trigger] s[i] == ',') {
            assert forall|i: int| 0 <= i < p.len() && i % 2 == 0 implies (#[trigger] file_type_from_char(p[i])) is Some by {
                assert(file_type_from_char(s[i]) is Some);
            }
            assert forall|i: int| 0 <= i < p.len() && i % 2 == 1 implies #[trigger] p[i] == ',' by {
                assert(s[i] == ',');
            }
            assert(file_type_from_char(s[s.len() - 1]) is Some);
        }
    } else if s.len() >= 3 {
        assert(s[s.len() - 2] != ',');
    } else if s.len() == 2 {
    }
}

pub proof fn lemma_or_chain_step(ts: Seq<FileType>, j: int, x: bool)
    requires
        1 <= j < ts.len(),
    ensures
        or_chain(ts.take(j + 1), x) == SExpr::Or(Box::new(or_chain(ts.take(j), x)), Box::new(type_test(ts[j], x))),
{
    assert(ts.take(j + 1).drop_last() =~= ts.take(j));
}

pub proof fn lemma_find_entry_skip<T>(tbl: Seq<(String, T)>, key: Seq<char>, i: int)
    requires
        0 <= i < tbl.len(),
    ensures
        find_entry(tbl.skip(i), key) == if tbl[i].0@ == key {
            Some(tbl[i].1)
        } else {
            find_entry(tbl.skip(i + 1), key)
        },
{
    assert(tbl.skip(i).drop_first() =~= tbl.skip(i + 1));
}

/// The first answer for `key` in a table.
pub fn find_in<T: Copy>(tbl: &Vec<(String, T)>, key: &str) -> (r: Option<T>)
    ensures
        r == find_entry(tbl@, key@),
{
    let mut i: usize = 0;
    proof {
        assert(tbl@.skip(0) =~= tbl@);
    }
    while i < tbl.len()
        invariant
            i <= tbl@.len(),
            find_entry(tbl@, key@) == find_entry(tbl@.skip(i as int), key@),
        decreases tbl.len() - i,
    {
        proof {
            lemma_find_entry_skip(tbl@, key@, i as int);
        }
        if crate::text::str_eq(tbl[i].0.as_str(), key) {
            return Some(tbl[i].1);
        }
        i += 1;
    }
    None
}

/// Rewrites a BRE or Emacs pattern in the syntax of the `regex` crate;
/// an extended pattern is kept as it is.
pub fn convert_regex_syntax(pattern: &str, syntax: RegexSyntax) -> (r: String)
    ensures
        r@ == convert_regex_spec(pattern@, syntax),
{
    if syntax == RegexSyntax::Extended {
        return String::from_str(pattern);
    }
    let basic = syntax == RegexSyntax::Basic;
    let v = chars_of(pattern);
    let mut out = String::new();
    let mut i: usize = 0;
    while i < v.len()
        invariant
            i <= v@.len(),
            v@ == pattern@,
            basic == (syntax == RegexSyntax::Basic),
            out@ + convert_from(v@, i as int, basic) == convert_from(v@, 0, basic),
        decreases v.len() - i,
    {
        let c = v[i];
        let ghost before = out@;
        if c == '\\' {
            if i + 1 < v.len() {
                let n = v[i + 1];
                let promote = n == '(' || n == ')' || n == '|' || (basic && (n == '{' || n == '}'
                    || n == '+' || n == '?'));
                if promote {
                    push_char(&mut out, n);
                    proof {
                        assert(before + convert_from(v@, i as int, basic) == out@ + convert_from(v@, i + 2, basic));
                    }
                } else {
                    push_char(&mut out, '\\');
                    push_char(&mut out, n);
                    proof {
                        assert(before + convert_from(v@, i as int, basic) =~= out@ + convert_from(v@, i + 2, basic));
                    }
                }
                i += 2;
            } else {
                push_char(&mut out, '\\');
                proof {
                    assert(convert_from(v@, i + 1, basic) == Seq::<char>::empty());
                    assert(before + convert_from(v@, i as int, basic) =~= out@ + convert_from(v@, i + 1, basic));
                }
                i += 1;
            }
        } else if c == '(' || c == ')' || c == '|' || c == '{' || c == '}' || (basic && (c == '+' || c == '?')) {
            push_char(&mut out, '\\');
            push_char(&mut out, c);
            proof {
                assert(before + convert_from(v@, i as int, basic) =~= out@ + convert_from(v@, i + 1, basic));
            }
            i += 1;
        } else {
            push_char(&mut out, c);
            proof {
                assert(before + convert_from(v@, i as int, basic) =~= out@ + convert_from(v@, i + 1, basic));
            }
            i += 1;
        }
    }
    proof {
        assert(convert_from(v@, i as int, basic) == Seq::<char>::empty());
        assert(out@ =~= convert_from(v@, 0, basic));
    }
    out
}

/// The dialect that a `-regextype` name selects.
pub fn parse_regextype(name: &str) -> (r: Option<RegexSyntax>)
    ensures
        r == regextype_of(name@),
{
    let v = chars_of(name);
    if chars_eq_str(&v, "emacs") || chars_eq_str(&v, "findutils-default") {
        Some(RegexSyntax::Emacs)
    } else if chars_eq_str(&v, "posix-basic") || chars_eq_str(&v, "posix-minimal-basic")
        || chars_eq_str(&v, "ed") || chars_eq_str(&v, "sed") || chars_eq_str(&v, "grep") {
        Some(RegexSyntax::Basic)
    } else if chars_eq_str(&v, "posix-extended") || chars_eq_str(&v, "posix-egrep")
        || chars_eq_str(&v, "egrep") || chars_eq_str(&v, "posix-awk") || chars_eq_str(&v, "awk")
        || chars_eq_str(&v, "gnu-awk") {
        Some(RegexSyntax::Extended)
    } else {
        None
    }
}

/// The letter of a time stamp in `-newerXY`.
pub fn parse_time_type_char(c: char) -> (r: Option<TimeType>)
    ensures
        r == time_file_type_from_char(c),
{
    if c == 'a' {
        Some(TimeType::Access)
    } else if c == 'c' {
        Some(TimeType::Change)
    } else if c == 'm' {
        Some(TimeType::Modify)
    } else if c == 'B' {
        Some(TimeType::Birth)
    } else {
        None
    }
}

fn is_open_paren_exec(a: &[char]) -> (r: bool)
    ensures
        r == is_open_paren(a@),
{
    chars_eq_str(a, "(") || chars_eq_str(a, "\\(")
}

fn is_close_paren_exec(a: &[char]) -> (r: bool)
    ensures
        r == is_close_paren(a@),
{
    chars_eq_str(a, ")") || chars_eq_str(a, "\\)")
}

fn is_not_operator_exec(a: &[char]) -> (r: bool)
    ensures
        r == is_not_operator(a@),
{
    chars_eq_str(a, "!") || chars_eq_str(a, "\\!")
}

fn is_list_separator_exec(a: &[char]) -> (r: bool)
    ensures
        r == is_list_separator(a@),
{
    chars_eq_str(a, ",")
}

fn is_exec_terminator_exec(a: &[char]) -> (r: bool)
    ensures
        r == is_exec_terminator(a@),
{
    chars_eq_str(a, ";") || chars_eq_str(a, "\\;")
}

fn is_or_or_list_or_close_exec(a: &[char]) -> (r: bool)
    ensures
        r == is_or_or_list_or_close(a@),
{
    chars_eq_str(a, "-o") || chars_eq_str(a, "-or") || is_list_separator_exec(a) || is_close_paren_exec(a)
}

/// What an argument names.
fn classify_exec(a: &[char]) -> (r: Prim)
    ensures
        r == classify(a@),
{
    if chars_eq_str(a, "-maxdepth") { Prim::MaxDepth }
    else if chars_eq_str(a, "-mindepth") { Prim::MinDepth }
    else if chars_eq_str(a, "-depth") || chars_eq_str(a, "-d") { Prim::Depth }
    else if chars_eq_str(a, "-xdev") || chars_eq_str(a, "-mount") { Prim::Xdev }
    else if chars_eq_str(a, "-follow") { Prim::Follow }
    else if chars_eq_str(a, "-daystart") { Prim::Daystart }
    else if chars_eq_str(a, "-noleaf") || chars_eq_str(a, "-ignore_readdir_race") || chars_eq_str(a, "-noignore_readdir_race")
        || chars_eq_str(a, "-warn") || chars_eq_str(a, "-nowarn") { Prim::Ignored }
    else if chars_eq_str(a, "-regextype") { Prim::Regextype }
    else if chars_eq_str(a, "-name") { Prim::Glob { which: 0, ci: false } }
    else if chars_eq_str(a, "-iname") { Prim::Glob { which: 0, ci: true } }
    else if chars_eq_str(a, "-path") || chars_eq_str(a, "-wholename") { Prim::Glob { which: 1, ci: false } }
    else if chars_eq_str(a, "-ipath") || chars_eq_str(a, "-iwholename") { Prim::Glob { which: 1, ci: true } }
    else if chars_eq_str(a, "-lname") { Prim::Glob { which: 2, ci: false } }
    else if chars_eq_str(a, "-ilname") { Prim::Glob { which: 2, ci: true } }
    else if chars_eq_str(a, "-regex") { Prim::RegexP { ci: false } }
    else if chars_eq_str(a, "-iregex") { Prim::RegexP { ci: true } }
    else if chars_eq_str(a, "-type") { Prim::TypeP { x: false } }
    else if chars_eq_str(a, "-xtype") { Prim::TypeP { x: true } }
    else if chars_eq_str(a, "-fstype") { Prim::Fstype }
    else if chars_eq_str(a, "-size") { Prim::Size }
    else if chars_eq_str(a, "-empty") { Prim::Empty }
    else if chars_eq_str(a, "-atime") { Prim::Time { tt: TimeType::Access, minutes: false } }
    else if chars_eq_str(a, "-ctime") { Prim::Time { tt: TimeType::Change, minutes: false } }
    else if chars_eq_str(a, "-mtime") { Prim::Time { tt: TimeType::Modify, minutes: false } }
    else if chars_eq_str(a, "-amin") { Prim::Time { tt: TimeType::Access, minutes: true } }
    else if chars_eq_str(a, "-cmin") { Prim::Time { tt: TimeType::Change, minutes: true } }
    else if chars_eq_str(a, "-mmin") { Prim::Time { tt: TimeType::Modify, minutes: true } }
    else if chars_eq_str(a, "-used") { Prim::Used }
    else if chars_eq_str(a, "-newer") { Prim::Newer }
    else if chars_eq_str(a, "-anewer") { Prim::ANewer { x: TimeType::Access } }
    else if chars_eq_str(a, "-cnewer") { Prim::ANewer { x: TimeType::Change } }
    else if starts_with_str(a, "-newer") && a.len() == 8 { Prim::NewerXY }
    else if chars_eq_str(a, "-user") { Prim::User }
    else if chars_eq_str(a, "-group") { Prim::Group }
    else if chars_eq_str(a, "-uid") { Prim::Uid }
    else if chars_eq_str(a, "-gid") { Prim::Gid }
    else if chars_eq_str(a, "-nouser") { Prim::NoUser }
    else if chars_eq_str(a, "-nogroup") { Prim::NoGroup }
    else if chars_eq_str(a, "-perm") { Prim::Perm }
    else if chars_eq_str(a, "-readable") { Prim::Readable }
    else if chars_eq_str(a, "-writable") { Prim::Writable }
    else if chars_eq_str(a, "-executable") { Prim::Executable }
    else if chars_eq_str(a, "-links") { Prim::Links }
    else if chars_eq_str(a, "-inum") { Prim::Inum }
    else if chars_eq_str(a, "-samefile") { Prim::Samefile }
    else if chars_eq_str(a, "-true") { Prim::True }
    else if chars_eq_str(a, "-false") { Prim::False }
    else if chars_eq_str(a, "-print") { Prim::Print }
    else if chars_eq_str(a, "-print0") { Prim::Print0 }
    else if chars_eq_str(a, "-fprint") { Prim::FPrint }
    else if chars_eq_str(a, "-fprint0") { Prim::FPrint0 }
    else if chars_eq_str(a, "-printf") { Prim::Printf }
    else if chars_eq_str(a, "-fprintf") { Prim::FPrintf }
    else if chars_eq_str(a, "-ls") { Prim::Ls }
    else if chars_eq_str(a, "-fls") { Prim::FLs }
    else if chars_eq_str(a, "-exec") { Prim::Exec { in_dir: false } }
    else if chars_eq_str(a, "-execdir") { Prim::Exec { in_dir: true } }
    else if chars_eq_str(a, "-ok") { Prim::OkP { in_dir: false } }
    else if chars_eq_str(a, "-okdir") { Prim::OkP { in_dir: true } }
    else if chars_eq_str(a, "-delete") { Prim::Delete }
    else if chars_eq_str(a, "-prune") { Prim::Prune }
    else if chars_eq_str(a, "-quit") { Prim::Quit }
    else { Prim::Unknown }
}

/// The state at the start of a parse.
pub open spec fn initial_state() -> PState {
    PState { pos: 0, options: default_options(), daystart: false, regex_syntax: RegexSyntax::Extended }
}

/// The exec value `r` is the string outcome `sr`.
pub open spec fn str_outcome(r: Result<String, String>, sr: Result<Seq<char>, PErr>) -> bool {
    match sr {
        Ok(x) => r is Ok && r->Ok_0@ == x,
        Err(e) => r is Err && r->Err_0@ == e.msg && e.missing is None,
    }
}

impl Parser {
    /// A parser of `args`, with an empty umask and no answers yet.
    pub fn new(args: Vec<String>) -> (r: Self)
        ensures
            ctx_of(r) == (PCtx {
                args: strings_view(args@),
                umask: 0,
                file_times: Seq::empty(),
                file_ids: Seq::empty(),
                users: Seq::empty(),
                groups: Seq::empty(),
                datetimes: Seq::empty(),
            }),
            state_of(r) == initial_state(),
            r.missing_query_view() is None,
            r.well_formed(),
    {
        Parser {
            args,
            pos: 0,
            options: GlobalOptions::default(),
            daystart: false,
            regex_syntax: RegexSyntax::Extended,
            umask: 0,
            file_times: Vec::new(),
            file_ids: Vec::new(),
            users: Vec::new(),
            groups: Vec::new(),
            datetimes: Vec::new(),
            missing: None,
        }
    }

    /// The question that the last failed parse could not answer, if any.
    pub closed spec fn missing_query_view(self) -> Option<SQuery> {
        query_view(self.missing)
    }

    /// The question that the last failed parse could not answer, if any.
    pub fn missing_query(&self) -> (r: Option<Query>)
        ensures
            query_view(r) == self.missing_query_view(),
    {
        match &self.missing {
            Some(Query::FileTimes(s)) => Some(Query::FileTimes(s.clone())),
            Some(Query::FileIds(s)) => Some(Query::FileIds(s.clone())),
            Some(Query::User(s)) => Some(Query::User(s.clone())),
            Some(Query::Group(s)) => Some(Query::Group(s.clone())),
            Some(Query::DateTime(s)) => Some(Query::DateTime(s.clone())),
            None => None,
        }
    }

    /// Sets the umask that symbolic `-perm` modes are read with.
    pub fn set_umask(&mut self, umask: u32)
        ensures
            ctx_of(*final(self)) == (PCtx { umask, ..ctx_of(*old(self)) }),
            state_of(*final(self)) == state_of(*old(self)),
            final(self).well_formed() == old(self).well_formed(),
    {
        self.umask = umask;
    }

    /// Records the time stamps of a reference file (`None`: no such file).
    pub fn add_file_times(&mut self, name: String, times: Option<RefTimes>)
        ensures
            ctx_of(*final(self)) == (PCtx { file_times: ctx_of(*old(self)).file_times.push((name, times)), ..ctx_of(*old(self)) }),
            state_of(*final(self)) == state_of(*old(self)),
            final(self).well_formed() == old(self).well_formed(),
    {
        self.file_times.push((name, times));
    }

    /// Records the device and inode of a file (`None`: no such file).
    pub fn add_file_ids(&mut self, name: String, ids: Option<(u64, u64)>)
        ensures
            ctx_of(*final(self)) == (PCtx { file_ids: ctx_of(*old(self)).file_ids.push((name, ids)), ..ctx_of(*old(self)) }),
            state_of(*final(self)) == state_of(*old(self)),
            final(self).well_formed() == old(self).well_formed(),
    {
        self.file_ids.push((name, ids));
    }

    /// Records the id of a user name (`None`: no such user).
    pub fn add_user(&mut self, name: String, id: Option<u32>)
        ensures
            ctx_of(*final(self)) == (PCtx { users: ctx_of(*old(self)).users.push((name, id)), ..ctx_of(*old(self)) }),
            state_of(*final(self)) == state_of(*old(self)),
            final(self).well_formed() == old(self).well_formed(),
    {
        self.users.push((name, id));
    }

    /// Records the id of a group name (`None`: no such group).
    pub fn add_group(&mut self, name: String, id: Option<u32>)
        ensures
            ctx_of(*final(self)) == (PCtx { groups: ctx_of(*old(self)).groups.push((name, id)), ..ctx_of(*old(self)) }),
            state_of(*final(self)) == state_of(*old(self)),
            final(self).well_formed() == old(self).well_formed(),
    {
        self.groups.push((name, id));
    }

    /// Records the instant that a date names (`None`: not a date).
    pub fn add_datetime(&mut self, text: String, time: Option<Timestamp>)
        ensures
            ctx_of(*final(self)) == (PCtx { datetimes: ctx_of(*old(self)).datetimes.push((text, time)), ..ctx_of(*old(self)) }),
            state_of(*final(self)) == state_of(*old(self)),
            final(self).well_formed() == old(self).well_formed(),
    {
        self.datetimes.push((text, time));
    }

    /// Goes back to the start of the arguments, keeping the answers.
    pub fn restart(&mut self)
        ensures
            ctx_of(*final(self)) == ctx_of(*old(self)),
            state_of(*final(self)) == initial_state(),
            final(self).missing_query_view() is None,
            final(self).well_formed(),
    {
        self.pos = 0;
        self.options = GlobalOptions::default();
        self.daystart = false;
        self.regex_syntax = RegexSyntax::Extended;
        self.missing = None;
    }

    /// The argument under the cursor.
    fn current(&self) -> (r: Option<String>)
        ensures
            self.args@.len() <= usize::MAX,
            match cur(ctx_of(*self), state_of(*self)) {
                Some(a) => r is Some && r->0@ == a,
                None => r is None,
            },
    {
        if self.pos < self.args.len() {
            Some(self.args[self.pos].clone())
        } else {
            None
        }
    }

    /// The argument after the cursor, the value of option `opt`.
    fn arg_after(&self, opt: &str) -> (r: Result<String, String>)
        ensures
            str_outcome(r, expect(ctx_of(*self), state_of(*self), opt@)),
            self.args@.len() <= usize::MAX,
    {
        if self.pos < self.args.len() && self.pos + 1 < self.args.len() {
            Ok(self.args[self.pos + 1].clone())
        } else {
            Err(messages::err_missing_argument(opt))
        }
    }
}

/// The parser moved on to `st2` and the result is `Ok(())`, or it failed as
/// `sr` says.
pub open spec fn unit_outcome(r: Result<(), String>, after: PState, sr: Result<PState, PErr>) -> bool {
    match sr {
        Ok(st2) => r is Ok && after == st2,
        Err(e) => r is Err && r->Err_0@ == e.msg && e.missing is None,
    }
}

impl Parser {
    /// A positional option `a` of kind `k` at the cursor.
    fn parse_option(&mut self, a: &String, k: Prim) -> (r: Result<(), String>)
        requires
            is_option_kind(k),
            cur(ctx_of(*old(self)), state_of(*old(self))) == Some(a@),
        ensures
            ctx_of(*final(self)) == ctx_of(*old(self)),
            final(self).missing == old(self).missing,
            final(self).pos <= final(self).args@.len(),
            unit_outcome(r, state_of(*final(self)), p_option(ctx_of(*old(self)), state_of(*old(self)), a@, k)),
    {
        let _len = self.args.len();
        match k {
            Prim::MaxDepth | Prim::MinDepth => {
                let n_str = self.arg_after(a.as_str())?;
                let nv = chars_of(n_str.as_str());
                match parse_usize(&nv) {
                    Some(n) => {
                        if k == Prim::MaxDepth {
                            self.options.max_depth = Some(n);
                        } else {
                            self.options.min_depth = Some(n);
                        }
                        self.pos = self.pos + 2;
                        Ok(())
                    },
                    None => Err(messages::err_invalid_argument(a.as_str(), n_str.as_str())),
                }
            },
            Prim::Depth => {
                self.options.depth_first = true;
                self.pos = self.pos + 1;
                Ok(())
            },
            Prim::Xdev => {
                self.options.xdev = true;
                self.pos = self.pos + 1;
                Ok(())
            },
            Prim::Follow => {
                self.options.follow_symlinks = FollowSymlinks::Always;
                self.pos = self.pos + 1;
                Ok(())
            },
            Prim::Daystart => {
                self.daystart = true;
                self.pos = self.pos + 1;
                Ok(())
            },
            Prim::Regextype => {
                let name = self.arg_after(a.as_str())?;
                match parse_regextype(name.as_str()) {
                    Some(sx) => {
                        self.regex_syntax = sx;
                        self.pos = self.pos + 2;
                        Ok(())
                    },
                    None => Err(messages::err_invalid_regextype(name.as_str())),
                }
            },
            _ => {
                self.pos = self.pos + 1;
                Ok(())
            },
        }
    }
}

impl Parser {
    fn prim_simple(&mut self, a: &String, k: Prim) -> (r: Result<Expression, String>)
        requires
            old(self).missing is None,
            cur(ctx_of(*old(self)), state_of(*old(self))) == Some(a@),
            classify(a@) == k,
            !is_option_kind(k) && simple_primary(k) is Some,
        ensures
            ctx_of(*final(self)) == ctx_of(*old(self)),
            final(self).pos <= final(self).args@.len(),
            outcome(r, *final(self), p_primary(ctx_of(*old(self)), state_of(*old(self)))),
            r is Ok ==> old(self).pos < final(self).pos <= final(self).args@.len(),
    {
        let _len = self.args.len();
        let e = match k {
            Prim::Empty => Expression::Test(Test::Empty),
            Prim::NoUser => Expression::Test(Test::NoUser),
            Prim::NoGroup => Expression::Test(Test::NoGroup),
            Prim::Readable => Expression::Test(Test::Readable),
            Prim::Writable => Expression::Test(Test::Writable),
            Prim::Executable => Expression::Test(Test::Executable),
            Prim::True => Expression::Test(Test::True),
            Prim::False => Expression::Test(Test::False),
            Prim::Print => Expression::Action(Action::Print),
            Prim::Print0 => Expression::Action(Action::Print0),
            Prim::Ls => Expression::Action(Action::Ls),
            Prim::Delete => Expression::Action(Action::Delete),
            Prim::Prune => Expression::Action(Action::Prune),
            _ => Expression::Action(Action::Quit),
        };
        self.pos = self.pos + 1;
        Ok(e)
    }

    fn prim_string(&mut self, a: &String, k: Prim) -> (r: Result<Expression, String>)
        requires
            old(self).missing is None,
            cur(ctx_of(*old(self)), state_of(*old(self))) == Some(a@),
            classify(a@) == k,
            !is_option_kind(k) && simple_primary(k) is None && (k == Prim::Fstype || k == Prim::FPrint || k == Prim::FPrint0 || k == Prim::Printf || k == Prim::FLs),
        ensures
            ctx_of(*final(self)) == ctx_of(*old(self)),
            final(self).pos <= final(self).args@.len(),
            outcome(r, *final(self), p_primary(ctx_of(*old(self)), state_of(*old(self)))),
            r is Ok ==> old(self).pos < final(self).pos <= final(self).args@.len(),
    {
        let s = self.arg_after(a.as_str())?;
        let e = match k {
            Prim::Fstype => Expression::Test(Test::Fstype(s)),
            Prim::FPrint => Expression::Action(Action::FPrint(s)),
            Prim::FPrint0 => Expression::Action(Action::FPrint0(s)),
            Prim::Printf => Expression::Action(Action::Printf(s)),
            _ => Expression::Action(Action::FLs(s)),
        };
        self.pos = self.pos + 2;
        Ok(e)
    }

    fn prim_numeric(&mut self, a: &String, k: Prim) -> (r: Result<Expression, String>)
        requires
            old(self).missing is None,
            cur(ctx_of(*old(self)), state_of(*old(self))) == Some(a@),
            classify(a@) == k,
            !is_option_kind(k) && simple_primary(k) is None && is_numeric_kind(k),
        ensures
            ctx_of(*final(self)) == ctx_of(*old(self)),
            final(self).pos <= final(self).args@.len(),
            outcome(r, *final(self), p_primary(ctx_of(*old(self)), state_of(*old(self)))),
            r is Ok ==> old(self).pos < final(self).pos <= final(self).args@.len(),
    {
        let n = self.arg_after(a.as_str())?;
        match NumericComparison::parse(n.as_str()) {
            Some(nc) => {
                let e = match k {
                    Prim::Uid => Expression::Test(Test::Uid(nc)),
                    Prim::Gid => Expression::Test(Test::Gid(nc)),
                    Prim::Links => Expression::Test(Test::Links(nc)),
                    Prim::Inum => Expression::Test(Test::Inum(nc)),
                    Prim::Time { tt, minutes } => Expression::Test(Test::Time {
                        time_type: tt,
                        comparison: nc,
                        minutes,
                        daystart: self.daystart,
                    }),
                    _ => Expression::Test(Test::Used(nc)),
                };
                self.pos = self.pos + 2;
                Ok(e)
            },
            None => {
                if matches!(k, Prim::Used | Prim::Time { .. }) {
                    Err(messages::err_invalid_time(n.as_str()))
                } else {
                    Err(messages::err_invalid_argument(a.as_str(), n.as_str()))
                }
            },
        }
    }

    fn prim_size_perm(&mut self, a: &String, k: Prim) -> (r: Result<Expression, String>)
        requires
            old(self).missing is None,
            cur(ctx_of(*old(self)), state_of(*old(self))) == Some(a@),
            classify(a@) == k,
            k == Prim::Size || k == Prim::Perm,
        ensures
            ctx_of(*final(self)) == ctx_of(*old(self)),
            final(self).pos <= final(self).args@.len(),
            outcome(r, *final(self), p_primary(ctx_of(*old(self)), state_of(*old(self)))),
            r is Ok ==> old(self).pos < final(self).pos <= final(self).args@.len(),
    {
        let s = self.arg_after(a.as_str())?;
        if k == Prim::Size {
            match SizeComparison::parse(s.as_str()) {
                Some(sc) => {
                    self.pos = self.pos + 2;
                    Ok(Expression::Test(Test::Size(sc)))
                },
                None => Err(messages::err_invalid_size(s.as_str())),
            }
        } else {
            match PermMode::parse_with_umask(s.as_str(), self.umask) {
                Some(pm) => {
                    self.pos = self.pos + 2;
                    Ok(Expression::Test(Test::Perm(pm)))
                },
                None => Err(messages::err_invalid_perm(s.as_str())),
            }
        }
    }

    fn prim_glob(&mut self, a: &String, k: Prim) -> (r: Result<Expression, String>)
        requires
            old(self).missing is None,
            cur(ctx_of(*old(self)), state_of(*old(self))) == Some(a@),
            classify(a@) == k,
            k is Glob,
        ensures
            ctx_of(*final(self)) == ctx_of(*old(self)),
            final(self).pos <= final(self).args@.len(),
            outcome(r, *final(self), p_primary(ctx_of(*old(self)), state_of(*old(self)))),
            r is Ok ==> old(self).pos < final(self).pos <= final(self).args@.len(),
    {
        let ps = self.arg_after(a.as_str())?;
        let (which, ci) = match k {
            Prim::Glob { which, ci } => (which, ci),
            _ => (0, false),
        };
        let text = if ci { to_lowercase(ps.as_str()) } else { ps };
        match glob_check(text.as_str()) {
            Some(m) => Err(messages::err_invalid_argument(a.as_str(), m.as_str())),
            None => {
                self.pos = self.pos + 2;
                let t = if which == 0 {
                    Test::Name { pattern: text, case_insensitive: ci }
                } else if which == 1 {
                    Test::Path { pattern: text, case_insensitive: ci }
                } else {
                    Test::Lname { pattern: text, case_insensitive: ci }
                };
                Ok(Expression::Test(t))
            },
        }
    }

    fn prim_regex(&mut self, a: &String, k: Prim) -> (r: Result<Expression, String>)
        requires
            old(self).missing is None,
            cur(ctx_of(*old(self)), state_of(*old(self))) == Some(a@),
            classify(a@) == k,
            k is RegexP,
        ensures
            ctx_of(*final(self)) == ctx_of(*old(self)),
            final(self).pos <= final(self).args@.len(),
            outcome(r, *final(self), p_primary(ctx_of(*old(self)), state_of(*old(self)))),
            r is Ok ==> old(self).pos < final(self).pos <= final(self).args@.len(),
    {
        let rs = self.arg_after(a.as_str())?;
        let ci = match k {
            Prim::RegexP { ci } => ci,
            _ => false,
        };
        let converted = convert_regex_syntax(rs.as_str(), self.regex_syntax);
        let mut anchored = String::from_str("^(?:");
        anchored.append(converted.as_str());
        anchored.append(")$");
        match regex_check(anchored.as_str(), ci) {
            Some(m) => Err(messages::err_invalid_regex(rs.as_str(), m.as_str())),
            None => {
                self.pos = self.pos + 2;
                Ok(Expression::Test(Test::Regex { pattern: anchored, case_insensitive: ci }))
            },
        }
    }

    #[verifier::loop_isolation(false)]
    fn prim_type(&mut self, a: &String, k: Prim) -> (r: Result<Expression, String>)
        requires
            old(self).missing is None,
            cur(ctx_of(*old(self)), state_of(*old(self))) == Some(a@),
            classify(a@) == k,
            k is TypeP,
        ensures
            ctx_of(*final(self)) == ctx_of(*old(self)),
            final(self).pos <= final(self).args@.len(),
            outcome(r, *final(self), p_primary(ctx_of(*old(self)), state_of(*old(self)))),
            r is Ok ==> old(self).pos < final(self).pos <= final(self).args@.len(),
    {
        let ts = self.arg_after(a.as_str())?;
        let x = match k {
            Prim::TypeP { x } => x,
            _ => false,
        };
        let v = chars_of(ts.as_str());
        proof {
            lemma_type_list_shape(v@);
        }
        if v.len() % 2 != 1 {
            return Err(messages::err_invalid_type(ts.as_str()));
        }
        let mut i: usize = 0;
        while i < v.len()
            invariant
                i <= v@.len(),
                forall|j: int| 0 <= j < i && j % 2 == 0 ==> (#[trigger] file_type_from_char(v@[j])) is Some,
                forall|j: int| 0 <= j < i && j % 2 == 1 ==> #[trigger] v@[j] == ',',
            decreases v.len() - i,
        {
            if i % 2 == 0 {
                if FileType::from_char(v[i]).is_none() {
                    proof {
                        assert(file_type_from_char(v@[i as int]) is None);
                    }
                    return Err(messages::err_invalid_type(ts.as_str()));
                }
                proof {
                    assert(file_type_from_char(v@[i as int]) is Some);
                }
            } else if v[i] != ',' {
                return Err(messages::err_invalid_type(ts.as_str()));
            }
            i += 1;
        }
        let ghost tl = type_list(v@)->0;
        let first = match FileType::from_char(v[0]) {
            Some(t) => t,
            None => return Err(messages::err_invalid_type(ts.as_str())),
        };
        proof {
            assert(Some(tl[0]) == file_type_from_char(v@[0]));
            assert(or_chain(tl.take(1), x) == type_test(tl[0], x));
        }
        let mut e = if x { Expression::Test(Test::Xtype(first)) } else { Expression::Test(Test::Type(first)) };
        let count = v.len() / 2 + 1;
        let mut m: usize = 1;
        while m < count
            invariant
                1 <= m <= count,
                count == (v@.len() + 1) / 2,
                v@.len() % 2 == 1,
                tl.len() == count,
                forall|q: int| 0 <= q < count ==> Some(#[trigger] tl[q]) == file_type_from_char(v@[2 * q]),
                e@ == or_chain(tl.take(m as int), x),
            decreases count - m,
        {
            let t = match FileType::from_char(v[2 * m]) {
                Some(t) => t,
                None => {
                    proof {
                        assert(Some(tl[m as int]) == file_type_from_char(v@[2 * m]));
                    }
                    return Err(messages::err_invalid_type(ts.as_str()));
                },
            };
            proof {
                assert(Some(tl[m as int]) == file_type_from_char(v@[2 * m]));
                lemma_or_chain_step(tl, m as int, x);
            }
            let right = if x { Expression::Test(Test::Xtype(t)) } else { Expression::Test(Test::Type(t)) };
            let ghost ev = e@;
            assert(right@ == type_test(tl[m as int], x));
            e = Expression::Or(Box::new(e), Box::new(right));
            assert(e@ == SExpr::Or(Box::new(ev), Box::new(type_test(tl[m as int], x))));
            m += 1;
        }
        proof {
            assert(tl.take(tl.len() as int) =~= tl);
        }
        self.pos = self.pos + 2;
        Ok(e)
    }
}

impl Parser {
    fn prim_newer(&mut self, a: &String, k: Prim) -> (r: Result<Expression, String>)
        requires
            old(self).missing is None,
            cur(ctx_of(*old(self)), state_of(*old(self))) == Some(a@),
            classify(a@) == k,
            k == Prim::Newer || k is ANewer,
        ensures
            ctx_of(*final(self)) == ctx_of(*old(self)),
            final(self).pos <= final(self).args@.len(),
            outcome(r, *final(self), p_primary(ctx_of(*old(self)), state_of(*old(self)))),
            r is Ok ==> old(self).pos < final(self).pos <= final(self).args@.len(),
    {
        let f = self.arg_after(a.as_str())?;
        match find_in(&self.file_times, f.as_str()) {
            None => {
                self.missing = Some(Query::FileTimes(f.clone()));
                Err(messages::err_file_not_found(f.as_str()))
            },
            Some(None) => Err(messages::err_file_not_found(f.as_str())),
            Some(Some(t)) => match t.mtime {
                None => Err(messages::err_file_not_found(f.as_str())),
                Some(m) => {
                    self.pos = self.pos + 2;
                    match k {
                        Prim::ANewer { x } => Ok(Expression::Test(Test::NewerXY { x, y: TimeType::Modify, reference: m })),
                        _ => Ok(Expression::Test(Test::Newer { reference_time: m })),
                    }
                },
            },
        }
    }

    fn prim_newer_xy(&mut self, a: &String, k: Prim) -> (r: Result<Expression, String>)
        requires
            old(self).missing is None,
            cur(ctx_of(*old(self)), state_of(*old(self))) == Some(a@),
            classify(a@) == k,
            k == Prim::NewerXY,
        ensures
            ctx_of(*final(self)) == ctx_of(*old(self)),
            final(self).pos <= final(self).args@.len(),
            outcome(r, *final(self), p_primary(ctx_of(*old(self)), state_of(*old(self)))),
            r is Ok ==> old(self).pos < final(self).pos <= final(self).args@.len(),
    {
        let av = chars_of(a.as_str());
        let x = match parse_time_type_char(av[6]) {
            Some(x) => x,
            None => return Err(messages::err_unknown_option(a.as_str())),
        };
        if av[7] == 't' {
            let ts = self.arg_after(a.as_str())?;
            match find_in(&self.datetimes, ts.as_str()) {
                None => {
                    self.missing = Some(Query::DateTime(ts.clone()));
                    Err(messages::err_invalid_argument(a.as_str(), ts.as_str()))
                },
                Some(None) => Err(messages::err_invalid_argument(a.as_str(), ts.as_str())),
                Some(Some(t)) => {
                    self.pos = self.pos + 2;
                    Ok(Expression::Test(Test::NewerXY { x, y: TimeType::Modify, reference: t }))
                },
            }
        } else {
            let y = match parse_time_type_char(av[7]) {
                Some(y) => y,
                None => return Err(messages::err_unknown_option(a.as_str())),
            };
            let f = self.arg_after(a.as_str())?;
            match find_in(&self.file_times, f.as_str()) {
                None => {
                    self.missing = Some(Query::FileTimes(f.clone()));
                    Err(messages::err_file_not_found(f.as_str()))
                },
                Some(None) => Err(messages::err_file_not_found(f.as_str())),
                Some(Some(t)) => {
                    let reference = match y {
                        TimeType::Access => Some(match t.atime { Some(v) => v, None => Timestamp { secs: 0, nanos: 0 } }),
                        TimeType::Change => Some(t.ctime),
                        TimeType::Modify => Some(match t.mtime { Some(v) => v, None => Timestamp { secs: 0, nanos: 0 } }),
                        TimeType::Birth => t.btime,
                    };
                    match reference {
                        Some(rt) => {
                            self.pos = self.pos + 2;
                            Ok(Expression::Test(Test::NewerXY { x, y, reference: rt }))
                        },
                        None => Err(messages::err_birth_time_unsupported(f.as_str())),
                    }
                },
            }
        }
    }

    fn prim_user_group(&mut self, a: &String, k: Prim) -> (r: Result<Expression, String>)
        requires
            old(self).missing is None,
            cur(ctx_of(*old(self)), state_of(*old(self))) == Some(a@),
            classify(a@) == k,
            k == Prim::User || k == Prim::Group,
        ensures
            ctx_of(*final(self)) == ctx_of(*old(self)),
            final(self).pos <= final(self).args@.len(),
            outcome(r, *final(self), p_primary(ctx_of(*old(self)), state_of(*old(self)))),
            r is Ok ==> old(self).pos < final(self).pos <= final(self).args@.len(),
    {
        let name = self.arg_after(a.as_str())?;
        let nv = chars_of(name.as_str());
        let is_user = k == Prim::User;
        match parse_u32(&nv) {
            Some(id) => {
                self.pos = self.pos + 2;
                Ok(Expression::Test(if is_user { Test::User(id) } else { Test::Group(id) }))
            },
            None => {
                let found = if is_user { find_in(&self.users, name.as_str()) } else { find_in(&self.groups, name.as_str()) };
                match found {
                    None => {
                        self.missing = Some(if is_user { Query::User(name.clone()) } else { Query::Group(name.clone()) });
                        if is_user {
                            Err(messages::err_user_not_found(name.as_str()))
                        } else {
                            Err(messages::err_group_not_found(name.as_str()))
                        }
                    },
                    Some(None) => if is_user {
                        Err(messages::err_user_not_found(name.as_str()))
                    } else {
                        Err(messages::err_group_not_found(name.as_str()))
                    },
                    Some(Some(id)) => {
                        self.pos = self.pos + 2;
                        Ok(Expression::Test(if is_user { Test::User(id) } else { Test::Group(id) }))
                    },
                }
            },
        }
    }

    fn prim_samefile(&mut self, a: &String, k: Prim) -> (r: Result<Expression, String>)
        requires
            old(self).missing is None,
            cur(ctx_of(*old(self)), state_of(*old(self))) == Some(a@),
            classify(a@) == k,
            k == Prim::Samefile,
        ensures
            ctx_of(*final(self)) == ctx_of(*old(self)),
            final(self).pos <= final(self).args@.len(),
            outcome(r, *final(self), p_primary(ctx_of(*old(self)), state_of(*old(self)))),
            r is Ok ==> old(self).pos < final(self).pos <= final(self).args@.len(),
    {
        let f = self.arg_after(a.as_str())?;
        match find_in(&self.file_ids, f.as_str()) {
            None => {
                self.missing = Some(Query::FileIds(f.clone()));
                Err(messages::err_file_not_found(f.as_str()))
            },
            Some(None) => Err(messages::err_file_not_found(f.as_str())),
            Some(Some((dev, ino))) => {
                self.pos = self.pos + 2;
                Ok(Expression::Test(Test::Samefile { dev, ino }))
            },
        }
    }

    fn prim_fprintf(&mut self, a: &String, k: Prim) -> (r: Result<Expression, String>)
        requires
            old(self).missing is None,
            cur(ctx_of(*old(self)), state_of(*old(self))) == Some(a@),
            classify(a@) == k,
            k == Prim::FPrintf,
        ensures
            ctx_of(*final(self)) == ctx_of(*old(self)),
            final(self).pos <= final(self).args@.len(),
            outcome(r, *final(self), p_primary(ctx_of(*old(self)), state_of(*old(self)))),
            r is Ok ==> old(self).pos < final(self).pos <= final(self).args@.len(),
    {
        let f = self.arg_after(a.as_str())?;
        if self.pos + 2 < self.args.len() {
            let fmt = self.args[self.pos + 2].clone();
            self.pos = self.pos + 3;
            Ok(Expression::Action(Action::FPrintf(f, fmt)))
        } else {
            Err(messages::err_missing_argument("-fprintf"))
        }
    }
}

impl Parser {
    /// The command of `-exec`/`-ok` from argument `start` on.
    fn collect_exec(&self, start: usize) -> (r: Result<(Vec<String>, ExecType, usize), String>)
        requires
            start <= self.args@.len(),
        ensures
            match exec_collect(ctx_of(*self), start as int, Seq::empty()) {
                Ok((cmd, et, next)) => r is Ok && strings_view(r->Ok_0.0@) == cmd && r->Ok_0.1 == et
                    && r->Ok_0.2 == next && start < next <= self.args@.len(),
                Err(e) => r is Err && r->Err_0@ == e.msg && e.missing is None,
            },
    {
        let ghost c = ctx_of(*self);
        let mut cmd: Vec<String> = Vec::new();
        let mut i = start;
        proof {
            assert(strings_view(cmd@) =~= Seq::<Seq<char>>::empty());
        }
        while i < self.args.len()
            invariant
                start <= i <= self.args@.len(),
                c == ctx_of(*self),
                exec_collect(c, i as int, strings_view(cmd@)) == exec_collect(c, start as int, Seq::empty()),
            decreases self.args.len() - i,
        {
            let av = chars_of(self.args[i].as_str());
            if is_exec_terminator_exec(&av) {
                return Ok((cmd, ExecType::Each, i + 1));
            } else if chars_eq_str(&av, "+") {
                if cmd.len() > 0 && chars_eq_str(&chars_of(cmd[cmd.len() - 1].as_str()), "{}") {
                    return Ok((cmd, ExecType::Batch, i + 1));
                } else if cmd.len() > 0 && has_pair(&chars_of(cmd[cmd.len() - 1].as_str()), '{', '}') {
                    return Err(messages::err_exec_batch_partial_placeholder(cmd[cmd.len() - 1].as_str()));
                } else {
                    let ghost before = strings_view(cmd@);
                    cmd.push(String::from_str("+"));
                    proof {
                        assert(strings_view(cmd@) =~= before.push("+"@));
                    }
                }
            } else {
                let ghost before = strings_view(cmd@);
                cmd.push(self.args[i].clone());
                proof {
                    assert(strings_view(cmd@) =~= before.push(c.args[i as int]));
                }
            }
            i += 1;
        }
        Err(messages::err_missing_exec_terminator())
    }

    fn prim_exec(&mut self, a: &String, k: Prim) -> (r: Result<Expression, String>)
        requires
            old(self).missing is None,
            cur(ctx_of(*old(self)), state_of(*old(self))) == Some(a@),
            classify(a@) == k,
            k is Exec || k is OkP,
        ensures
            ctx_of(*final(self)) == ctx_of(*old(self)),
            final(self).pos <= final(self).args@.len(),
            outcome(r, *final(self), p_primary(ctx_of(*old(self)), state_of(*old(self)))),
            r is Ok ==> old(self).pos < final(self).pos <= final(self).args@.len(),
    {
        let _len = self.args.len();
        let (command, et, next) = self.collect_exec(self.pos + 1)?;
        if command.len() == 0 {
            return Err(messages::err_missing_argument(a.as_str()));
        }
        match k {
            Prim::Exec { in_dir } => {
                self.pos = next;
                Ok(Expression::Action(Action::Exec { command, exec_type: et, in_dir }))
            },
            Prim::OkP { in_dir } => {
                if et == ExecType::Batch {
                    Err(messages::err_ok_no_batch(a.as_str()))
                } else {
                    self.pos = next;
                    Ok(Expression::Action(Action::OkPrompt { command, in_dir }))
                }
            },
            _ => Err(messages::err_unknown_option(a.as_str())),
        }
    }

    /// A primary (test, action or positional option) at the cursor.
    fn parse_primary(&mut self) -> (r: Result<Expression, String>)
        requires
            old(self).missing is None,
            old(self).pos <= old(self).args@.len(),
        ensures
            ctx_of(*final(self)) == ctx_of(*old(self)),
            final(self).pos <= final(self).args@.len(),
            outcome(r, *final(self), p_primary(ctx_of(*old(self)), state_of(*old(self)))),
            r is Ok ==> old(self).pos < final(self).pos <= final(self).args@.len(),
    {
        let a = match self.current() {
            Some(a) => a,
            None => return Err(messages::err_expression_required()),
        };
        let av = chars_of(a.as_str());
        let k = classify_exec(&av);
        if matches!(k, Prim::MaxDepth | Prim::MinDepth | Prim::Depth | Prim::Xdev | Prim::Follow
            | Prim::Daystart | Prim::Ignored | Prim::Regextype) {
            let _len = self.args.len();
            self.parse_option(&a, k)?;
            return Ok(Expression::Test(Test::True));
        }
        match k {
            Prim::Empty | Prim::NoUser | Prim::NoGroup | Prim::Readable | Prim::Writable
            | Prim::Executable | Prim::True | Prim::False | Prim::Print | Prim::Print0 | Prim::Ls
            | Prim::Delete | Prim::Prune | Prim::Quit => self.prim_simple(&a, k),
            Prim::Fstype | Prim::FPrint | Prim::FPrint0 | Prim::Printf | Prim::FLs => self.prim_string(&a, k),
            Prim::Uid | Prim::Gid | Prim::Links | Prim::Inum | Prim::Used | Prim::Time { .. } => self.prim_numeric(&a, k),
            Prim::Size | Prim::Perm => self.prim_size_perm(&a, k),
            Prim::Glob { .. } => self.prim_glob(&a, k),
            Prim::RegexP { .. } => self.prim_regex(&a, k),
            Prim::TypeP { .. } => self.prim_type(&a, k),
            Prim::Newer | Prim::ANewer { .. } => self.prim_newer(&a, k),
            Prim::NewerXY => self.prim_newer_xy(&a, k),
            Prim::User | Prim::Group => self.prim_user_group(&a, k),
            Prim::Samefile => self.prim_samefile(&a, k),
            Prim::FPrintf => self.prim_fprintf(&a, k),
            Prim::Exec { .. } | Prim::OkP { .. } => self.prim_exec(&a, k),
            _ => Err(messages::err_unknown_option(a.as_str())),
        }
    }
}

impl Parser {
    fn parse_unary(&mut self) -> (r: Result<Expression, String>)
        requires
            old(self).missing is None,
            old(self).pos <= old(self).args@.len(),
        ensures
            ctx_of(*final(self)) == ctx_of(*old(self)),
            final(self).pos <= final(self).args@.len(),
            outcome(r, *final(self), p_unary(ctx_of(*old(self)), state_of(*old(self)))),
            r is Ok ==> old(self).pos < final(self).pos <= final(self).args@.len(),
        decreases old(self).args@.len() - old(self).pos, 1nat,
    {
        let _len = self.args.len();
        let a = match self.current() {
            Some(a) => a,
            None => return self.parse_primary(),
        };
        let av = chars_of(a.as_str());
        if is_not_operator_exec(&av) || chars_eq_str(&av, "-not") {
            self.pos = self.pos + 1;
            let e = self.parse_unary()?;
            Ok(Expression::Not(Box::new(e)))
        } else if is_open_paren_exec(&av) {
            self.pos = self.pos + 1;
            let e = self.parse_or()?;
            match self.current() {
                Some(b) => {
                    let bv = chars_of(b.as_str());
                    if is_close_paren_exec(&bv) {
                        self.pos = self.pos + 1;
                        Ok(e)
                    } else {
                        Err(messages::err_unmatched_paren())
                    }
                },
                None => Err(messages::err_unmatched_paren()),
            }
        } else {
            self.parse_primary()
        }
    }

    fn parse_and_rest(&mut self, left: Expression) -> (r: Result<Expression, String>)
        requires
            old(self).missing is None,
            old(self).pos <= old(self).args@.len(),
        ensures
            ctx_of(*final(self)) == ctx_of(*old(self)),
            final(self).pos <= final(self).args@.len(),
            outcome(r, *final(self), p_and_rest(ctx_of(*old(self)), state_of(*old(self)), left@)),
            r is Ok ==> old(self).pos <= final(self).pos <= final(self).args@.len(),
        decreases old(self).args@.len() - old(self).pos, 2nat,
    {
        let _len = self.args.len();
        let a = match self.current() {
            Some(a) => a,
            None => return Ok(left),
        };
        let av = chars_of(a.as_str());
        if chars_eq_str(&av, "-a") || chars_eq_str(&av, "-and") {
            let start = self.pos;
            self.pos = self.pos + 1;
            let right = self.parse_unary()?;
            let e = Expression::And(Box::new(left), Box::new(right));
            self.parse_and_rest(e)
        } else if !is_or_or_list_or_close_exec(&av) && av.len() != 0 {
            if !is_not_operator_exec(&av) && !is_open_paren_exec(&av) && !starts_with_str(&av, "-") {
                Ok(left)
            } else {
                let right = self.parse_unary()?;
                let e = Expression::And(Box::new(left), Box::new(right));
                self.parse_and_rest(e)
            }
        } else {
            Ok(left)
        }
    }

    fn parse_and(&mut self) -> (r: Result<Expression, String>)
        requires
            old(self).missing is None,
            old(self).pos <= old(self).args@.len(),
        ensures
            ctx_of(*final(self)) == ctx_of(*old(self)),
            final(self).pos <= final(self).args@.len(),
            outcome(r, *final(self), p_and(ctx_of(*old(self)), state_of(*old(self)))),
            r is Ok ==> old(self).pos < final(self).pos <= final(self).args@.len(),
        decreases old(self).args@.len() - old(self).pos, 3nat,
    {
        let left = self.parse_unary()?;
        self.parse_and_rest(left)
    }

    fn parse_or(&mut self) -> (r: Result<Expression, String>)
        requires
            old(self).missing is None,
            old(self).pos <= old(self).args@.len(),
        ensures
            ctx_of(*final(self)) == ctx_of(*old(self)),
            final(self).pos <= final(self).args@.len(),
            outcome(r, *final(self), p_or(ctx_of(*old(self)), state_of(*old(self)))),
            r is Ok ==> old(self).pos < final(self).pos <= final(self).args@.len(),
        decreases old(self).args@.len() - old(self).pos, 4nat,
    {
        let left = self.parse_and()?;
        self.parse_or_rest(left)
    }

    fn parse_or_rest(&mut self, left: Expression) -> (r: Result<Expression, String>)
        requires
            old(self).missing is None,
            old(self).pos <= old(self).args@.len(),
        ensures
            ctx_of(*final(self)) == ctx_of(*old(self)),
            final(self).pos <= final(self).args@.len(),
            outcome(r, *final(self), p_or_rest(ctx_of(*old(self)), state_of(*old(self)), left@)),
            r is Ok ==> old(self).pos <= final(self).pos <= final(self).args@.len(),
        decreases old(self).args@.len() - old(self).pos, 5nat,
    {
        let _len = self.args.len();
        let a = match self.current() {
            Some(a) => a,
            None => return Ok(left),
        };
        let av = chars_of(a.as_str());
        let is_or = chars_eq_str(&av, "-o") || chars_eq_str(&av, "-or");
        let is_list = is_list_separator_exec(&av);
        if is_or || is_list {
            self.pos = self.pos + 1;
            let right = self.parse_and()?;
            let e = if is_list {
                Expression::List(Box::new(left), Box::new(right))
            } else {
                Expression::Or(Box::new(left), Box::new(right))
            };
            self.parse_or_rest(e)
        } else {
            Ok(left)
        }
    }
}

/// What a successful parse yields, with its strings as sequences.
pub struct SParseResult {
    pub paths: Seq<Seq<char>>,
    pub expression: Option<SExpr>,
    pub global_options: GlobalOptions,
}

/// Whether the expression holds a `-delete`.
pub open spec fn contains_delete(e: SExpr) -> bool
    decreases e,
{
    match e {
        SExpr::Action(SAction::Delete) => true,
        SExpr::Not(x) => contains_delete(*x),
        SExpr::And(a, b) => contains_delete(*a) || contains_delete(*b),
        SExpr::Or(a, b) => contains_delete(*a) || contains_delete(*b),
        SExpr::List(a, b) => contains_delete(*a) || contains_delete(*b),
        _ => false,
    }
}

/// The global options (`-H`, `-L`, `-P`, `-D x`, `-O[n]`) at the cursor.
pub open spec fn p_globals(c: PCtx, st: PState) -> PState
    decreases c.args.len() - st.pos,
{
    if st.pos < 0 || st.pos >= c.args.len() {
        st
    } else {
        let a = c.args[st.pos];
        let o = st.options;
        if a == "-H"@ {
            p_globals(c, PState { pos: st.pos + 1, options: GlobalOptions { follow_symlinks: FollowSymlinks::Commandline, ..o }, ..st })
        } else if a == "-L"@ {
            p_globals(c, PState { pos: st.pos + 1, options: GlobalOptions { follow_symlinks: FollowSymlinks::Always, ..o }, ..st })
        } else if a == "-P"@ {
            p_globals(c, PState { pos: st.pos + 1, options: GlobalOptions { follow_symlinks: FollowSymlinks::Never, ..o }, ..st })
        } else if a == "-D"@ {
            p_globals(c, at(st, if st.pos + 1 < c.args.len() { st.pos + 2 } else { st.pos + 1 }))
        } else if is_prefix("-O"@, a) && crate::text::all_digits(a.skip(2)) {
            if a == "-O"@ && st.pos + 1 < c.args.len()
                && parse_int_spec(c.args[st.pos + 1], i32::MIN as int, i32::MAX as int) is Some {
                p_globals(c, at(st, st.pos + 2))
            } else {
                p_globals(c, at(st, st.pos + 1))
            }
        } else {
            st
        }
    }
}

/// An argument that ends the start paths.
pub open spec fn path_stop(a: Seq<char>) -> bool {
    (is_prefix("-"@, a) && a.len() > 1) || is_open_paren(a) || is_not_operator(a) || is_list_separator(a)
}

/// The end of the start paths that begin at argument `i`.
pub open spec fn path_end(c: PCtx, i: int) -> int
    decreases c.args.len() - i,
{
    if 0 <= i < c.args.len() && !path_stop(c.args[i]) {
        path_end(c, i + 1)
    } else {
        i
    }
}

/// The whole command line: global options, start paths (`.` when there
/// are none), then an optional expression that must use up the arguments.
/// An expression with `-delete` turns on depth-first order.
pub open spec fn p_parse(c: PCtx, st: PState) -> Result<SParseResult, PErr> {
    let g = p_globals(c, st);
    let e = path_end(c, g.pos);
    let raw = c.args.subrange(g.pos, e);
    let paths = if raw.len() == 0 { seq!["."@] } else { raw };
    let s2 = at(g, e);
    let ex: PR<Option<SExpr>> = if cur(c, s2) is Some {
        match p_or(c, s2) {
            Ok((x, s3)) => Ok((Some(x), s3)),
            Err(er) => Err(er),
        }
    } else {
        Ok((None, s2))
    };
    match ex {
        Err(er) => Err(er),
        Ok((x, s3)) => match cur(c, s3) {
            Some(a) => Err(perr(
                if is_close_paren(a) {
                    messages::err_unmatched_paren_text()
                } else {
                    messages::err_unknown_option_text(a)
                },
            )),
            None => Ok(SParseResult {
                paths,
                expression: x,
                global_options: if x is Some && contains_delete(x->0) {
                    GlobalOptions { depth_first: true, ..s3.options }
                } else {
                    s3.options
                },
            }),
        },
    }
}

impl View for ParseResult {
    type V = SParseResult;

    open spec fn view(&self) -> SParseResult {
        SParseResult {
            paths: strings_view(self.paths@),
            expression: match self.expression {
                Some(e) => Some(e@),
                None => None,
            },
            global_options: self.global_options,
        }
    }
}

/// Whether the expression holds a `-delete`.
pub fn expression_contains_delete(e: &Expression) -> (r: bool)
    ensures
        r == contains_delete(e@),
    decreases e,
{
    match e {
        Expression::Action(Action::Delete) => true,
        Expression::Not(x) => expression_contains_delete(x),
        Expression::And(a, b) => expression_contains_delete(a) || expression_contains_delete(b),
        Expression::Or(a, b) => expression_contains_delete(a) || expression_contains_delete(b),
        Expression::List(a, b) => expression_contains_delete(a) || expression_contains_delete(b),
        _ => false,
    }
}

impl Parser {
    /// The cursor lies within the arguments.
    pub closed spec fn well_formed(self) -> bool {
        self.pos <= self.args@.len()
    }

    fn parse_globals(&mut self)
        requires
            old(self).pos <= old(self).args@.len(),
        ensures
            ctx_of(*final(self)) == ctx_of(*old(self)),
            final(self).missing == old(self).missing,
            state_of(*final(self)) == p_globals(ctx_of(*old(self)), state_of(*old(self))),
            final(self).pos <= final(self).args@.len(),
    {
        let _len = self.args.len();
        while self.pos < self.args.len()
            invariant
                self.pos <= self.args@.len(),
                ctx_of(*self) == ctx_of(*old(self)),
                self.missing == old(self).missing,
                p_globals(ctx_of(*self), state_of(*self)) == p_globals(ctx_of(*old(self)), state_of(*old(self))),
            decreases self.args@.len() - self.pos,
        {
            let av = chars_of(self.args[self.pos].as_str());
            if chars_eq_str(&av, "-H") {
                self.options.follow_symlinks = FollowSymlinks::Commandline;
                self.pos = self.pos + 1;
            } else if chars_eq_str(&av, "-L") {
                self.options.follow_symlinks = FollowSymlinks::Always;
                self.pos = self.pos + 1;
            } else if chars_eq_str(&av, "-P") {
                self.options.follow_symlinks = FollowSymlinks::Never;
                self.pos = self.pos + 1;
            } else if chars_eq_str(&av, "-D") {
                if self.pos + 1 < self.args.len() {
                    self.pos = self.pos + 2;
                } else {
                    self.pos = self.pos + 1;
                }
            } else if starts_with_str(&av, "-O") && {
                proof {
                    reveal_strlit("-O");
                }
                all_digits_from(&av, 2)
            } {
                let bare = chars_eq_str(&av, "-O");
                let bump = bare && self.pos + 1 < self.args.len()
                    && parse_i32(&chars_of(self.args[self.pos + 1].as_str())).is_some();
                if bump {
                    self.pos = self.pos + 2;
                } else {
                    self.pos = self.pos + 1;
                }
            } else {
                return;
            }
        }
    }

    /// Reads the command line.
    pub fn parse(&mut self) -> (r: Result<ParseResult, String>)
        requires
            old(self).well_formed(),
        ensures
            ctx_of(*final(self)) == ctx_of(*old(self)),
            final(self).well_formed(),
            match p_parse(ctx_of(*old(self)), state_of(*old(self))) {
                Ok(pr) => r is Ok && r->Ok_0@ == pr,
                Err(e) => r is Err && r->Err_0@ == e.msg && final(self).missing_query_view() == e.missing,
            },
    {
        self.missing = None;
        let _len = self.args.len();
        self.parse_globals();
        let mut paths: Vec<String> = Vec::new();
        let ghost g = state_of(*self);
        let ghost c = ctx_of(*self);
        while self.pos < self.args.len()
            invariant
                0 <= g.pos <= self.pos <= self.args@.len(),
                c == ctx_of(*self),
                c.args.len() == self.args@.len(),
                state_of(*self) == at(g, self.pos as int),
                self.missing is None,
                path_end(c, self.pos as int) == path_end(c, g.pos),
                strings_view(paths@) == c.args.subrange(g.pos, self.pos as int),
            ensures
                0 <= g.pos <= self.pos <= self.args@.len(),
                c == ctx_of(*self),
                state_of(*self) == at(g, self.pos as int),
                self.missing is None,
                path_end(c, self.pos as int) == path_end(c, g.pos),
                strings_view(paths@) == c.args.subrange(g.pos, self.pos as int),
                path_end(c, self.pos as int) == self.pos as int,
            decreases self.args@.len() - self.pos,
        {
            let av = chars_of(self.args[self.pos].as_str());
            assert(av@ == c.args[self.pos as int]);
            if (starts_with_str(&av, "-") && av.len() > 1) || is_open_paren_exec(&av)
                || is_not_operator_exec(&av) || is_list_separator_exec(&av) {
                break;
            }
            let ghost before = strings_view(paths@);
            let item = self.args[self.pos].clone();
            assert(item@ == c.args[self.pos as int]);
            paths.push(item);
            proof {
                assert(c.args.subrange(g.pos, self.pos + 1) =~= c.args.subrange(g.pos, self.pos as int).push(c.args[self.pos as int]));
                assert(strings_view(paths@) =~= before.push(item@));
            }
            self.pos = self.pos + 1;
        }
        if paths.len() == 0 {
            paths.push(String::from_str("."));
            proof {
                assert(strings_view(paths@) =~= seq!["."@]);
            }
        }
        let expression = if self.pos < self.args.len() {
            Some(self.parse_or()?)
        } else {
            None
        };
        if self.pos < self.args.len() {
            let av = chars_of(self.args[self.pos].as_str());
            if is_close_paren_exec(&av) {
                return Err(messages::err_unmatched_paren());
            } else {
                return Err(messages::err_unknown_option(self.args[self.pos].as_str()));
            }
        }
        let has_delete = match &expression {
            Some(e) => expression_contains_delete(e),
            None => false,
        };
        if has_delete {
            self.options.depth_first = true;
        }
        Ok(ParseResult { paths, expression, global_options: self.options })
    }
}

/// Whether `v[from..]` consists of ASCII digits only.
fn all_digits_from(v: &[char], from: usize) -> (r: bool)
    requires
        from <= v@.len(),
    ensures
        r == crate::text::all_digits(v@.skip(from as int)),
{
    let mut i = from;
    while i < v.len()
        invariant
            from <= i <= v@.len(),
            forall|j: int| from <= j < i ==> crate::text::is_digit(#[trigger] v@[j]),
        decreases v.len() - i,
    {
        let cu = v[i] as u32;
        if !(48 <= cu && cu <= 57) {
            proof {
                assert(v@.skip(from as int)[i - from] == v@[i as int]);
            }
            return false;
        }
        i += 1;
    }
    proof {
        assert forall|j: int| 0 <= j < v@.skip(from as int).len() implies crate::text::is_digit(#[trigger] v@.skip(from as int)[j]) by {
            assert(v@.skip(from as int)[j] == v@[from + j]);
        }
    }
    true
}

} // verus!
