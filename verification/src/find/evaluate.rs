//! The tests of `find` evaluated against what is known of a file.
use vstd::prelude::*;
use crate::text::{lowercase_of, to_lowercase};
use crate::matching::{glob_match_of, glob_matches, regex_match_of, regex_matches};
use crate::find::expression::{
    FileType, NumericComparison, PermMode, SizeComparison, SizeUnit, STest, Test, TimeType, Timestamp,
    numeric_matches, perm_matches, secs_between, size_in_units, ts_nanos, unit_bytes,
};

verus! {

/// The kind of a file, as its metadata gives it.
#[derive(Debug, Clone, Copy, PartialEq, Eq, Structural)]
pub enum FileKind {
    Directory,
    Regular,
    Symlink,
    BlockDevice,
    CharDevice,
    Fifo,
    Socket,
    Other,
}

/// What the tests read of a file's metadata.
#[derive(Debug, Clone, Copy)]
pub struct Meta {
    pub kind: FileKind,
    pub size: u64,
    pub mode: u32,
    pub uid: u32,
    pub gid: u32,
    pub nlink: u64,
    pub ino: u64,
    pub dev: u64,
    pub atime: Option<Timestamp>,
    pub mtime: Option<Timestamp>,
    pub ctime: Timestamp,
    pub btime: Option<Timestamp>,
    /// Whether the owner, group or others may read, write or run the file,
    /// as the running user would be judged.
    pub readable: bool,
    pub writable: bool,
    pub executable: bool,
    /// Whether the owner and the group are known to the system.
    pub user_known: bool,
    pub group_known: bool,
}

/// What is known of the file under test.
pub struct EvalContext {
    /// The path as walked, when it is valid text.
    pub path: Option<String>,
    /// Its last component, when there is one and it is valid text.
    pub name: Option<String>,
    /// Whether the path itself is a symbolic link.
    pub is_symlink: bool,
    /// The target of the link, when it is one.
    pub link_target: Option<String>,
    /// The metadata as the walk reads it (through links when it follows
    /// them); `None` when it could not be read.
    pub meta: Option<Meta>,
    /// For a directory, whether reading it found no entry; `None` when it
    /// could not be read.
    pub dir_empty: Option<bool>,
    /// The type of the file system that holds the file, when known.
    pub fstype: Option<String>,
    /// The time `find` started, and the end of that day (for `-daystart`).
    pub now: Timestamp,
    pub day_end: Timestamp,
}

/// A time stamp that the tests can compare: its nanoseconds under a second.
pub open spec fn ts_ok(t: Timestamp) -> bool {
    t.nanos < 1_000_000_000
}

pub open spec fn opt_ts_ok(t: Option<Timestamp>) -> bool {
    match t {
        Some(x) => ts_ok(x),
        None => true,
    }
}

/// A context whose numbers the tests can handle: time stamps with
/// nanoseconds under a second, and a size with room for rounding up to a
/// whole gibibyte.
pub open spec fn context_ok(c: &EvalContext) -> bool {
    &&& ts_ok(c.now)
    &&& ts_ok(c.day_end)
    &&& match c.meta {
        Some(m) => {
            &&& opt_ts_ok(m.atime)
            &&& opt_ts_ok(m.mtime)
            &&& ts_ok(m.ctime)
            &&& opt_ts_ok(m.btime)
            &&& m.size + 1024 * 1024 * 1024 <= u64::MAX
        },
        None => true,
    }
}

pub open spec fn opt_text(s: Option<String>) -> Option<Seq<char>> {
    match s {
        Some(x) => Some(x@),
        None => None,
    }
}

/// Whether `a` is later than `b`: by seconds, then by nanoseconds.
pub open spec fn ts_after(a: Timestamp, b: Timestamp) -> bool {
    a.secs > b.secs || (a.secs == b.secs && a.nanos > b.nanos)
}

/// `-type`: the kind of the metadata, except that `l` asks whether the
/// path is a link.
pub open spec fn kind_matches(ft: FileType, kind: FileKind, is_symlink: bool) -> bool {
    match ft {
        FileType::BlockDevice => kind == FileKind::BlockDevice,
        FileType::CharDevice => kind == FileKind::CharDevice,
        FileType::Directory => kind == FileKind::Directory,
        FileType::RegularFile => kind == FileKind::Regular,
        FileType::SymbolicLink => is_symlink,
        FileType::Pipe => kind == FileKind::Fifo,
        FileType::Socket => kind == FileKind::Socket,
    }
}

/// The time stamp a test reads.
pub open spec fn file_time(m: Meta, t: TimeType) -> Option<Timestamp> {
    match t {
        TimeType::Access => m.atime,
        TimeType::Change => Some(m.ctime),
        TimeType::Modify => m.mtime,
        TimeType::Birth => m.btime,
    }
}

/// The text compared with a pattern: lower-cased for the `-i` tests.
pub open spec fn folded(s: Seq<char>, ci: bool) -> Seq<char> {
    if ci { lowercase_of(s) } else { s }
}

/// Whether a glob test holds of an optional text.
pub open spec fn glob_on(pattern: Seq<char>, text: Option<Seq<char>>, ci: bool) -> bool {
    match text {
        Some(t) => glob_match_of(pattern, folded(t, ci)),
        None => false,
    }
}

/// Whether a test on the metadata holds.
pub open spec fn meta_test_holds(t: STest, m: Meta, c: &EvalContext) -> bool {
    match t {
        STest::Type(ft) => kind_matches(ft, m.kind, c.is_symlink),
        STest::Xtype(ft) => kind_matches(ft, m.kind, false),
        STest::Size(sc) => numeric_matches(sc.comparison, #[verifier::truncate] (size_in_units(m.size, sc.unit) as i64) as int),
        STest::Empty => match m.kind {
            FileKind::Directory => c.dir_empty == Some(true),
            FileKind::Regular => m.size == 0,
            _ => false,
        },
        STest::Time { time_type, comparison, minutes, daystart } => match file_time(m, time_type) {
            Some(ft) => {
                let secs = secs_between(if daystart { c.day_end } else { c.now }, ft);
                numeric_matches(comparison, if minutes { secs / 60 } else { secs / 86400 })
            },
            None => false,
        },
        STest::Used(comparison) => match m.atime {
            Some(a) => numeric_matches(comparison, secs_between(a, m.ctime) / 86400),
            None => false,
        },
        STest::Newer { reference_time } => match m.mtime {
            Some(mt) => ts_after(mt, reference_time),
            None => false,
        },
        STest::NewerXY { x, y: _, reference } => match file_time(m, x) {
            Some(ft) => ts_after(ft, reference),
            None => false,
        },
        STest::User(u) => m.uid == u,
        STest::Group(g) => m.gid == g,
        STest::Uid(comp) => numeric_matches(comp, m.uid as int),
        STest::Gid(comp) => numeric_matches(comp, m.gid as int),
        STest::NoUser => !m.user_known,
        STest::NoGroup => !m.group_known,
        STest::Perm(p) => perm_matches(p, m.mode),
        STest::Readable => m.readable,
        STest::Writable => m.writable,
        STest::Executable => m.executable,
        STest::Links(comp) => numeric_matches(comp, #[verifier::truncate] (m.nlink as i64) as int),
        STest::Inum(comp) => numeric_matches(comp, #[verifier::truncate] (m.ino as i64) as int),
        STest::Samefile { dev, ino } => m.dev == dev && m.ino == ino,
        _ => false,
    }
}

/// Whether a test holds of the file.
pub open spec fn test_holds(t: STest, c: &EvalContext) -> bool {
    match t {
        STest::Name { pattern, case_insensitive } => glob_on(pattern, opt_text(c.name), case_insensitive),
        STest::Path { pattern, case_insensitive } => glob_on(pattern, opt_text(c.path), case_insensitive),
        STest::Lname { pattern, case_insensitive } => c.is_symlink && glob_on(pattern, opt_text(c.link_target), case_insensitive),
        STest::Regex { pattern, case_insensitive } => match c.path {
            Some(p) => regex_match_of(pattern, case_insensitive, p@),
            None => false,
        },
        STest::Fstype(f) => opt_text(c.fstype) == Some(f),
        STest::True => true,
        STest::False => false,
        _ => match c.meta {
            Some(m) => meta_test_holds(t, m, c),
            None => false,
        },
    }
}

/// A glob test on an optional text.
fn glob_test(pattern: &String, text: &Option<String>, ci: bool) -> (r: bool)
    ensures
        r == glob_on(pattern@, opt_text(*text), ci),
{
    match text {
        Some(t) => {
            if ci {
                let low = to_lowercase(t.as_str());
                glob_matches(pattern.as_str(), low.as_str())
            } else {
                glob_matches(pattern.as_str(), t.as_str())
            }
        },
        None => false,
    }
}

/// Whole seconds from `earlier` to `later`, as a count of minutes or days.
fn elapsed_units(later: &Timestamp, earlier: &Timestamp, minutes: bool) -> (r: i64)
    requires
        ts_ok(*later),
        ts_ok(*earlier),
    ensures
        r == (if minutes { secs_between(*later, *earlier) / 60 } else { secs_between(*later, *earlier) / 86400 }),
{
    let s = later.secs_since(earlier);
    if minutes { (s / 60) as i64 } else { (s / 86400) as i64 }
}

/// A test on the metadata.
fn meta_test(t: &Test, m: &Meta, c: &EvalContext) -> (r: bool)
    requires
        context_ok(c),
        c.meta == Some(*m),
    ensures
        r == meta_test_holds(t@, *m, c),
{
    match t {
        Test::Type(ft) => kind_test(*ft, m.kind, c.is_symlink),
        Test::Xtype(ft) => kind_test(*ft, m.kind, false),
        Test::Size(sc) => sc.matches(m.size),
        Test::Empty => match m.kind {
            FileKind::Directory => match c.dir_empty {
                Some(e) => e,
                None => false,
            },
            FileKind::Regular => m.size == 0,
            _ => false,
        },
        Test::Time { time_type, comparison, minutes, daystart } => match time_of(m, *time_type) {
            Some(ft) => {
                let base = if *daystart { &c.day_end } else { &c.now };
                comparison.matches(elapsed_units(base, &ft, *minutes))
            },
            None => false,
        },
        Test::Used(comparison) => match m.atime {
            Some(a) => comparison.matches(elapsed_units(&a, &m.ctime, false)),
            None => false,
        },
        Test::Newer { reference_time } => match m.mtime {
            Some(mt) => mt.secs > reference_time.secs || (mt.secs == reference_time.secs && mt.nanos > reference_time.nanos),
            None => false,
        },
        Test::NewerXY { x, y: _, reference } => match time_of(m, *x) {
            Some(ft) => ft.secs > reference.secs || (ft.secs == reference.secs && ft.nanos > reference.nanos),
            None => false,
        },
        Test::User(u) => m.uid == *u,
        Test::Group(g) => m.gid == *g,
        Test::Uid(comp) => comp.matches(m.uid as i64),
        Test::Gid(comp) => comp.matches(m.gid as i64),
        Test::NoUser => !m.user_known,
        Test::NoGroup => !m.group_known,
        Test::Perm(p) => p.matches(m.mode),
        Test::Readable => m.readable,
        Test::Writable => m.writable,
        Test::Executable => m.executable,
        Test::Links(comp) => comp.matches(#[verifier::truncate] (m.nlink as i64)),
        Test::Inum(comp) => comp.matches(#[verifier::truncate] (m.ino as i64)),
        Test::Samefile { dev, ino } => m.dev == *dev && m.ino == *ino,
        _ => false,
    }
}

/// `-type` and `-xtype` on a kind.
fn kind_test(ft: FileType, kind: FileKind, is_symlink: bool) -> (r: bool)
    ensures
        r == kind_matches(ft, kind, is_symlink),
{
    match ft {
        FileType::BlockDevice => kind == FileKind::BlockDevice,
        FileType::CharDevice => kind == FileKind::CharDevice,
        FileType::Directory => kind == FileKind::Directory,
        FileType::RegularFile => kind == FileKind::Regular,
        FileType::SymbolicLink => is_symlink,
        FileType::Pipe => kind == FileKind::Fifo,
        FileType::Socket => kind == FileKind::Socket,
    }
}

/// The time stamp a test reads.
fn time_of(m: &Meta, t: TimeType) -> (r: Option<Timestamp>)
    ensures
        r == file_time(*m, t),
{
    match t {
        TimeType::Access => m.atime,
        TimeType::Change => Some(m.ctime),
        TimeType::Modify => m.mtime,
        TimeType::Birth => m.btime,
    }
}

impl Test {
    /// Whether the test holds of the file.
    pub fn evaluate(&self, ctx: &EvalContext) -> (r: bool)
        requires
            context_ok(ctx),
        ensures
            r == test_holds(self@, ctx),
    {
        match self {
            Test::Name { pattern, case_insensitive } => glob_test(pattern, &ctx.name, *case_insensitive),
            Test::Path { pattern, case_insensitive } => glob_test(pattern, &ctx.path, *case_insensitive),
            Test::Lname { pattern, case_insensitive } => ctx.is_symlink && glob_test(pattern, &ctx.link_target, *case_insensitive),
            Test::Regex { pattern, case_insensitive } => match &ctx.path {
                Some(p) => regex_matches(pattern.as_str(), *case_insensitive, p.as_str()),
                None => false,
            },
            Test::Fstype(f) => match &ctx.fstype {
                Some(x) => crate::text::str_eq(x.as_str(), f.as_str()),
                None => false,
            },
            Test::True => true,
            Test::False => false,
            _ => match &ctx.meta {
                Some(m) => meta_test(self, m, ctx),
                None => false,
            },
        }
    }
}

} // verus!
