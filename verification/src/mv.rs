//! The library side of `mv`: the names of backups, the trimming of
//! trailing slashes, and the path tests that guard a move.
use vstd::prelude::*;
use crate::text::{chars_of, chars_eq_str, str_eq, to_lowercase, lowercase_of, is_prefix, starts_with_str, slice_chars,
    string_of, decimal, decimal_string, join3};

verus! {

/// How backups are made.
#[derive(Debug, Clone, Copy, PartialEq, Eq, Structural)]
pub enum BackupMode {
    Off,
    Simple,
    Numbered,
    Existing,
}

/// The mode that `VERSION_CONTROL` names; existing-style when it names none.
pub open spec fn default_mode_spec(v: Option<Seq<char>>) -> BackupMode {
    match v {
        Some(x) => if x == "none"@ || x == "off"@ {
            BackupMode::Off
        } else if x == "simple"@ || x == "never"@ {
            BackupMode::Simple
        } else if x == "numbered"@ || x == "t"@ {
            BackupMode::Numbered
        } else {
            BackupMode::Existing
        },
        None => BackupMode::Existing,
    }
}

/// The default backup mode for the value of `VERSION_CONTROL`, if set.
pub fn default_backup_mode(version_control: Option<&str>) -> (r: BackupMode)
    ensures
        r == default_mode_spec(match version_control { Some(s) => Some(s@), None => None }),
{
    match version_control {
        Some(x) => if str_eq(x, "none") || str_eq(x, "off") {
            BackupMode::Off
        } else if str_eq(x, "simple") || str_eq(x, "never") {
            BackupMode::Simple
        } else if str_eq(x, "numbered") || str_eq(x, "t") {
            BackupMode::Numbered
        } else {
            BackupMode::Existing
        },
        None => BackupMode::Existing,
    }
}

/// The mode `--backup=V` names, or `None` for a bad value.
pub open spec fn backup_arg_spec(v: Seq<char>) -> Option<BackupMode> {
    if v == "simple"@ || v == "never"@ {
        Some(BackupMode::Simple)
    } else if v == "numbered"@ || v == "t"@ {
        Some(BackupMode::Numbered)
    } else if v == "existing"@ || v == "nil"@ {
        Some(BackupMode::Existing)
    } else if v == "none"@ || v == "off"@ {
        Some(BackupMode::Off)
    } else {
        None
    }
}

/// The mode of `--backup=V`, or the message for a bad value.
pub fn backup_arg(v: &str) -> (r: Result<BackupMode, String>)
    ensures
        match backup_arg_spec(v@) {
            Some(m) => r == Ok::<BackupMode, String>(m),
            None => r is Err && r->Err_0@ == "'--backup' の引数が不正です: '"@ + v@ + "'"@,
        },
{
    if str_eq(v, "simple") || str_eq(v, "never") {
        Ok(BackupMode::Simple)
    } else if str_eq(v, "numbered") || str_eq(v, "t") {
        Ok(BackupMode::Numbered)
    } else if str_eq(v, "existing") || str_eq(v, "nil") {
        Ok(BackupMode::Existing)
    } else if str_eq(v, "none") || str_eq(v, "off") {
        Ok(BackupMode::Off)
    } else {
        Err(join3("'--backup' の引数が不正です: '", v, "'"))
    }
}

/// A simple backup's name: the path and the suffix.
pub fn simple_backup(path: &str, suffix: &str) -> (r: String)
    ensures
        r@ == path@ + suffix@,
{
    crate::text::concat(path, suffix)
}

/// The `n`-th numbered backup's name: `PATH.~N~`.
pub open spec fn numbered_backup_spec(path: Seq<char>, n: nat) -> Seq<char> {
    path + ".~"@ + decimal(n) + "~"@
}

/// The `n`-th numbered backup's name. The caller tries 1, 2, ... until a
/// name is free.
pub fn numbered_backup(path: &str, n: u64) -> (r: String)
    ensures
        r@ == numbered_backup_spec(path@, n as nat),
{
    let d = decimal_string(n);
    let mut s = String::from_str(path);
    s.append(".~");
    s.append(d.as_str());
    s.append("~");
    s
}

/// Whether a directory entry is a numbered backup of the file `name`: it
/// starts with `NAME.~` and ends with `~`.
pub open spec fn is_numbered_backup_of_spec(entry: Seq<char>, name: Seq<char>) -> bool {
    is_prefix(name + ".~"@, entry) && entry.len() > 0 && entry.last() == '~'
}

/// Whether a directory entry is a numbered backup of the file `name`.
pub fn is_numbered_backup_of(entry: &str, name: &str) -> (r: bool)
    ensures
        r == is_numbered_backup_of_spec(entry@, name@),
{
    let prefix = crate::text::concat(name, ".~");
    let e = chars_of(entry);
    starts_with_str(&e, prefix.as_str()) && e.len() > 0 && e[e.len() - 1] == '~'
}

/// The backup names of `--backup` (and of `VERSION_CONTROL`): `simple` or
/// `never` make simple backups, `numbered` or `t` numbered ones,
/// `existing` or `nil` numbered ones where they already exist, `none` or
/// `off` none; an unset variable means `existing`. Every numbered backup
/// name is recognised as one of its file.
pub proof fn lemma_backup_names(name: Seq<char>, n: nat)
    ensures
        backup_arg_spec("simple"@) == Some(BackupMode::Simple) && backup_arg_spec("never"@) == Some(BackupMode::Simple),
        backup_arg_spec("numbered"@) == Some(BackupMode::Numbered) && backup_arg_spec("t"@) == Some(BackupMode::Numbered),
        backup_arg_spec("existing"@) == Some(BackupMode::Existing) && backup_arg_spec("nil"@) == Some(BackupMode::Existing),
        backup_arg_spec("none"@) == Some(BackupMode::Off) && backup_arg_spec("off"@) == Some(BackupMode::Off),
        default_mode_spec(Some("simple"@)) == BackupMode::Simple && default_mode_spec(Some("never"@)) == BackupMode::Simple,
        default_mode_spec(Some("numbered"@)) == BackupMode::Numbered && default_mode_spec(Some("t"@)) == BackupMode::Numbered,
        default_mode_spec(Some("none"@)) == BackupMode::Off && default_mode_spec(Some("off"@)) == BackupMode::Off,
        default_mode_spec(None) == BackupMode::Existing,
        is_numbered_backup_of_spec(numbered_backup_spec(name, n), name),
{
    reveal_strlit("simple");
    reveal_strlit("never");
    reveal_strlit("numbered");
    reveal_strlit("t");
    reveal_strlit("existing");
    reveal_strlit("nil");
    reveal_strlit("none");
    reveal_strlit("off");
    reveal_strlit("~");
    assert("numbered"@.len() != "simple"@.len() && "numbered"@.len() != "never"@.len());
    assert("t"@.len() != "simple"@.len() && "t"@.len() != "never"@.len());
    assert("existing"@[0] != "numbered"@[0]);
    assert("existing"@.len() != "simple"@.len() && "existing"@.len() != "never"@.len() && "existing"@.len() != "t"@.len());
    assert("nil"@.len() != "simple"@.len() && "nil"@.len() != "never"@.len() && "nil"@.len() != "numbered"@.len() && "nil"@.len() != "t"@.len());
    assert("none"@.len() != "simple"@.len() && "none"@.len() != "never"@.len() && "none"@.len() != "numbered"@.len() && "none"@.len() != "t"@.len());
    assert("none"@.len() != "existing"@.len() && "none"@.len() != "nil"@.len());
    assert("off"@[0] != "nil"@[0]);
    assert("off"@.len() != "simple"@.len() && "off"@.len() != "never"@.len() && "off"@.len() != "numbered"@.len() && "off"@.len() != "t"@.len() && "off"@.len() != "existing"@.len());
    let b = numbered_backup_spec(name, n);
    assert(b.take((name + ".~"@).len() as int) =~= name + ".~"@);
    assert(b.last() == '~');
}

/// `path` without its trailing `/` and `\`.
pub open spec fn strip_slashes_spec(path: Seq<char>) -> Seq<char>
    decreases path.len(),
{
    if path.len() > 0 && (path.last() == '/' || path.last() == '\\') {
        strip_slashes_spec(path.drop_last())
    } else {
        path
    }
}

/// `--strip-trailing-slashes`: the path without its trailing slashes when
/// `strip` is set, else the path as it is.
pub fn strip_slashes(path: &str, strip: bool) -> (r: String)
    ensures
        r@ == if strip { strip_slashes_spec(path@) } else { path@ },
{
    let v = chars_of(path);
    if !strip {
        return string_of(&v);
    }
    let mut n = v.len();
    proof {
        assert(v@.take(v.len() as int) =~= v@);
    }
    while n > 0 && (v[n - 1] == '/' || v[n - 1] == '\\')
        invariant
            n <= v.len(),
            v@ == path@,
            strip_slashes_spec(v@) == strip_slashes_spec(v@.take(n as int)),
        decreases n,
    {
        assert(v@.take(n as int).drop_last() =~= v@.take(n - 1));
        n -= 1;
    }
    let r = slice_chars(&v, 0, n);
    assert(r@ =~= v@.take(n as int));
    string_of(&r)
}

/// Whether `path` lies inside the directory `dir`: case aside, it starts
/// with `dir` followed by a `/` or `\`.
pub open spec fn is_within_spec(dir: Seq<char>, path: Seq<char>) -> bool {
    let d = lowercase_of(dir);
    let p = lowercase_of(path);
    p.len() > d.len() && is_prefix(d, p) && (p[d.len() as int] == '/' || p[d.len() as int] == '\\')
}

/// Whether `path` lies inside the directory `dir` (moving a directory
/// into itself is refused).
pub fn is_within(dir: &str, path: &str) -> (r: bool)
    ensures
        r == is_within_spec(dir@, path@),
{
    let d = to_lowercase(dir);
    let p = to_lowercase(path);
    let dv = chars_of(d.as_str());
    let pv = chars_of(p.as_str());
    pv.len() > dv.len() && starts_with_str(&pv, d.as_str()) && (pv[dv.len()] == '/' || pv[dv.len()] == '\\')
}

/// Whether two file names differ only in case.
pub open spec fn case_only_spec(a: Seq<char>, b: Seq<char>) -> bool {
    a != b && lowercase_of(a) == lowercase_of(b)
}

/// Whether two file names (of paths that name the same file) differ only
/// in case, so that the move is a rename in place.
pub fn names_differ_only_in_case(a: &str, b: &str) -> (r: bool)
    ensures
        r == case_only_spec(a@, b@),
{
    let la = to_lowercase(a);
    let lb = to_lowercase(b);
    !str_eq(a, b) && str_eq(la.as_str(), lb.as_str())
}

} // verus!

verus! {

/// One option of `mv`'s command line, as read.
#[derive(Debug, PartialEq, Eq)]
pub enum MvFlag {
    Force,
    Interactive,
    NoClobber,
    Verbose,
    Update,
    /// `-b`: the default mode, unless a mode is already set.
    BackupIfOff,
    /// `--backup`: the default mode.
    BackupDefault,
    /// `--backup=V`.
    Backup(BackupMode),
    Suffix(String),
    TargetDir(String),
    NoTargetDir,
    StripSlashes,
    Help,
    Version,
}

/// The same, as values.
pub enum MvView {
    Force,
    Interactive,
    NoClobber,
    Verbose,
    Update,
    BackupIfOff,
    BackupDefault,
    Backup(BackupMode),
    Suffix(Seq<char>),
    TargetDir(Seq<char>),
    NoTargetDir,
    StripSlashes,
    Help,
    Version,
}

impl View for MvFlag {
    type V = MvView;

    open spec fn view(&self) -> MvView {
        match self {
            MvFlag::Force => MvView::Force,
            MvFlag::Interactive => MvView::Interactive,
            MvFlag::NoClobber => MvView::NoClobber,
            MvFlag::Verbose => MvView::Verbose,
            MvFlag::Update => MvView::Update,
            MvFlag::BackupIfOff => MvView::BackupIfOff,
            MvFlag::BackupDefault => MvView::BackupDefault,
            MvFlag::Backup(m) => MvView::Backup(*m),
            MvFlag::Suffix(s) => MvView::Suffix(s@),
            MvFlag::TargetDir(s) => MvView::TargetDir(s@),
            MvFlag::NoTargetDir => MvView::NoTargetDir,
            MvFlag::StripSlashes => MvView::StripSlashes,
            MvFlag::Help => MvView::Help,
            MvFlag::Version => MvView::Version,
        }
    }
}

pub open spec fn flags_view(v: Seq<MvFlag>) -> Seq<MvView> {
    v.map_values(|f: MvFlag| f@)
}

/// What `--NAME[=VALUE]` (the argument at `i`, `opt` after `--`) means,
/// and the index of the last argument it used.
pub open spec fn mv_long(args: Seq<Seq<char>>, i: int, opt: Seq<char>) -> Result<(MvView, int), Seq<char>> {
    let (name, value) = crate::ls::options::long_parts(opt);
    if name == "force"@ { Ok((MvView::Force, i)) }
    else if name == "interactive"@ { Ok((MvView::Interactive, i)) }
    else if name == "no-clobber"@ { Ok((MvView::NoClobber, i)) }
    else if name == "verbose"@ { Ok((MvView::Verbose, i)) }
    else if name == "update"@ { Ok((MvView::Update, i)) }
    else if name == "backup"@ {
        match value {
            None => Ok((MvView::BackupDefault, i)),
            Some(v) => match backup_arg_spec(v) {
                Some(m) => Ok((MvView::Backup(m), i)),
                None => Err("'--backup' の引数が不正です: '"@ + v + "'"@),
            },
        }
    } else if name == "suffix"@ {
        match value {
            None => Err("'--suffix' には引数が必要です"@),
            Some(v) => Ok((MvView::Suffix(v), i)),
        }
    } else if name == "target-directory"@ {
        match value {
            Some(v) => Ok((MvView::TargetDir(v), i)),
            None => if i + 1 < args.len() {
                Ok((MvView::TargetDir(args[i + 1]), i + 1))
            } else {
                Err("'--target-directory' には引数が必要です"@)
            },
        }
    } else if name == "no-target-directory"@ { Ok((MvView::NoTargetDir, i)) }
    else if name == "strip-trailing-slashes"@ { Ok((MvView::StripSlashes, i)) }
    else if name == "help"@ { Ok((MvView::Help, i)) }
    else if name == "version"@ { Ok((MvView::Version, i)) }
    else { Err("不明なオプション: '--"@ + name + "'"@) }
}

/// The letters `chars[j..]` of the cluster at `i`: `t` and `S` take the
/// rest of the argument, or the next argument, as their value. The flags
/// read and the index of the last argument used.
pub open spec fn mv_cluster(args: Seq<Seq<char>>, i: int, chars: Seq<char>, j: int) -> Result<(Seq<MvView>, int), Seq<char>>
    decreases chars.len() - j,
{
    if j < 0 || j >= chars.len() {
        Ok((Seq::empty(), i))
    } else {
        let x = chars[j];
        let rest = chars.skip(j + 1);
        if x == 't' || x == 'S' {
            let mk = |v: Seq<char>| if x == 't' { MvView::TargetDir(v) } else { MvView::Suffix(v) };
            if rest.len() > 0 {
                Ok((seq![mk(rest)], i))
            } else if i + 1 < args.len() {
                Ok((seq![mk(args[i + 1])], i + 1))
            } else if x == 't' {
                Err("'-t' には引数が必要です"@)
            } else {
                Err("'-S' には引数が必要です"@)
            }
        } else {
            let f = if x == 'f' { Some(MvView::Force) }
                else if x == 'i' { Some(MvView::Interactive) }
                else if x == 'n' { Some(MvView::NoClobber) }
                else if x == 'v' { Some(MvView::Verbose) }
                else if x == 'u' { Some(MvView::Update) }
                else if x == 'b' { Some(MvView::BackupIfOff) }
                else if x == 'T' { Some(MvView::NoTargetDir) }
                else { None };
            match f {
                None => Err("不正なオプション: '-"@ + seq![x] + "'"@),
                Some(fl) => match mv_cluster(args, i, chars, j + 1) {
                    Ok((fs, last)) => Ok((seq![fl] + fs, last)),
                    Err(e) => Err(e),
                },
            }
        }
    }
}

/// The options and operands from the argument at `i` on.
pub open spec fn mv_args_from(args: Seq<Seq<char>>, i: int, rest: bool, flags: Seq<MvView>, targets: Seq<Seq<char>>)
    -> Result<(Seq<MvView>, Seq<Seq<char>>), Seq<char>>
    decreases args.len() - i,
{
    if i < 0 || i >= args.len() {
        Ok((flags, targets))
    } else {
        let a = args[i];
        if rest {
            mv_args_from(args, i + 1, rest, flags, targets.push(a))
        } else if a == "--"@ {
            mv_args_from(args, i + 1, true, flags, targets)
        } else if is_prefix("--"@, a) {
            match mv_long(args, i, a.skip(2)) {
                Ok((f, last)) => if i <= last < args.len() { mv_args_from(args, last + 1, rest, flags.push(f), targets) } else { Err(Seq::empty()) },
                Err(e) => Err(e),
            }
        } else if a.len() > 1 && a[0] == '-' {
            match mv_cluster(args, i, a.skip(1), 0) {
                Ok((fs, last)) => if i <= last < args.len() { mv_args_from(args, last + 1, rest, flags + fs, targets) } else { Err(Seq::empty()) },
                Err(e) => Err(e),
            }
        } else {
            mv_args_from(args, i + 1, rest, flags, targets.push(a))
        }
    }
}

/// The command line of `mv` (`args[0]` is the program's name): the
/// options in order and the operands; `-t` and `-T` together are refused.
pub open spec fn mv_args_spec(args: Seq<Seq<char>>) -> Result<(Seq<MvView>, Seq<Seq<char>>), Seq<char>> {
    match mv_args_from(args, 1, false, Seq::empty(), Seq::empty()) {
        Err(e) => Err(e),
        Ok((fs, ts)) => if (exists|k: int| 0 <= k < fs.len() && fs[k] is TargetDir)
            && (exists|k: int| 0 <= k < fs.len() && fs[k] is NoTargetDir) {
            Err("--target-directory (-t) と --no-target-directory (-T) は同時に指定できません"@)
        } else {
            Ok((fs, ts))
        },
    }
}

pub proof fn lemma_mv_cluster(args: Seq<Seq<char>>, i: int, chars: Seq<char>, j: int)
    ensures
        match mv_cluster(args, i, chars, j) {
            Ok((_, last)) => i <= last <= i + 1 && (last == i + 1 ==> i + 1 < args.len()),
            Err(_) => true,
        },
    decreases chars.len() - j,
{
    if 0 <= j < chars.len() && chars[j] != 't' && chars[j] != 'S' {
        lemma_mv_cluster(args, i, chars, j + 1);
    }
}

} // verus!

verus! {

/// Reads the long option at `i`; the flag and the last argument used.
#[verifier::rlimit(60)]
fn read_long(args: &[String], i: usize) -> (r: Result<(MvFlag, usize), String>)
    requires
        i < args.len(),
        args@[i as int]@.len() >= 2,
    ensures
        match mv_long(crate::find::expression::strings_view(args@), i as int, args@[i as int]@.skip(2)) {
            Ok((f, last)) => r is Ok && r->Ok_0.0@ == f && r->Ok_0.1 as int == last,
            Err(e) => r is Err && r->Err_0@ == e,
        },
{
    let ghost sv = crate::find::expression::strings_view(args@);
    let a = chars_of(args[i].as_str());
    let opt = slice_chars(&a, 2, a.len());
    assert(opt@ =~= args@[i as int]@.skip(2));
    let (name, value) = match crate::text::find_char(&opt, '=') {
        Some(k) => {
            proof {
                crate::text::lemma_first_index_of(opt@, '=', k as int);
            }
            let n = slice_chars(&opt, 0, k);
            let v = slice_chars(&opt, k + 1, opt.len());
            assert(n@ =~= opt@.take(k as int));
            assert(v@ =~= opt@.skip(k + 1));
            (n, Some(v))
        },
        None => {
            assert(!(exists|j: int| 0 <= j < opt@.len() && opt@[j] == '='));
            (opt.clone(), None)
        },
    };
    assert(crate::ls::options::long_parts(opt@) == (name@, match value { Some(x) => Some(x@), None => None::<Seq<char>> }));
    if chars_eq_str(&name, "force") { Ok((MvFlag::Force, i)) }
    else if chars_eq_str(&name, "interactive") { Ok((MvFlag::Interactive, i)) }
    else if chars_eq_str(&name, "no-clobber") { Ok((MvFlag::NoClobber, i)) }
    else if chars_eq_str(&name, "verbose") { Ok((MvFlag::Verbose, i)) }
    else if chars_eq_str(&name, "update") { Ok((MvFlag::Update, i)) }
    else if chars_eq_str(&name, "backup") {
        match value {
            None => Ok((MvFlag::BackupDefault, i)),
            Some(v) => {
                let vs = string_of(&v);
                match backup_arg(vs.as_str()) {
                    Ok(m) => Ok((MvFlag::Backup(m), i)),
                    Err(e) => Err(e),
                }
            },
        }
    } else if chars_eq_str(&name, "suffix") {
        match value {
            None => Err(String::from_str("'--suffix' には引数が必要です")),
            Some(v) => Ok((MvFlag::Suffix(string_of(&v)), i)),
        }
    } else if chars_eq_str(&name, "target-directory") {
        match value {
            Some(v) => Ok((MvFlag::TargetDir(string_of(&v)), i)),
            None => if i + 1 < args.len() {
                assert(sv[i + 1] == args@[i + 1]@);
                Ok((MvFlag::TargetDir(args[i + 1].clone()), i + 1))
            } else {
                Err(String::from_str("'--target-directory' には引数が必要です"))
            },
        }
    } else if chars_eq_str(&name, "no-target-directory") { Ok((MvFlag::NoTargetDir, i)) }
    else if chars_eq_str(&name, "strip-trailing-slashes") { Ok((MvFlag::StripSlashes, i)) }
    else if chars_eq_str(&name, "help") { Ok((MvFlag::Help, i)) }
    else if chars_eq_str(&name, "version") { Ok((MvFlag::Version, i)) }
    else { Err(crate::text::wrap_chars("不明なオプション: '--", &name, "'")) }
}

/// Reads the cluster of short options at `i`; the flags and the last
/// argument used.
#[verifier::rlimit(60)]
fn read_cluster(args: &[String], i: usize) -> (r: Result<(Vec<MvFlag>, usize), String>)
    requires
        i < args.len(),
        args@[i as int]@.len() >= 1,
    ensures
        match mv_cluster(crate::find::expression::strings_view(args@), i as int, args@[i as int]@.skip(1), 0) {
            Ok((fs, last)) => r is Ok && flags_view(r->Ok_0.0@) == fs && r->Ok_0.1 as int == last,
            Err(e) => r is Err && r->Err_0@ == e,
        },
{
    let ghost sv = crate::find::expression::strings_view(args@);
    let a = chars_of(args[i].as_str());
    let ghost chars = a@.skip(1);
    assert(a@ == args@[i as int]@);
    let mut out: Vec<MvFlag> = Vec::new();
    let mut k: usize = 1;
    let ghost want = mv_cluster(sv, i as int, chars, 0);
    proof {
        assert(flags_view(out@) =~= Seq::<MvView>::empty());
        assert(Seq::<MvView>::empty() + Seq::<MvView>::empty() =~= Seq::<MvView>::empty());
    }
    while k < a.len()
        invariant
            1 <= k <= a.len(),
            i < args.len(),
            sv == crate::find::expression::strings_view(args@),
            chars == a@.skip(1),
            a@ == args@[i as int]@,
            want == mv_cluster(sv, i as int, chars, 0),
            match mv_cluster(sv, i as int, chars, k - 1) {
                Ok((fs, last)) => want == Ok::<(Seq<MvView>, int), Seq<char>>((flags_view(out@) + fs, last)),
                Err(e) => want == Err::<(Seq<MvView>, int), Seq<char>>(e),
            },
        decreases a.len() - k,
    {
        let x = a[k];
        assert(chars[k - 1] == x);
        if x == 't' || x == 'S' {
            let (val, last) = if k + 1 < a.len() {
                let rest = slice_chars(&a, k + 1, a.len());
                assert(rest@ =~= chars.skip(k as int));
                (string_of(&rest), i)
            } else if i + 1 < args.len() {
                assert(chars.skip(k as int).len() == 0);
                assert(sv[i + 1] == args@[i + 1]@);
                (args[i + 1].clone(), i + 1)
            } else {
                assert(chars.skip(k as int).len() == 0);
                let m = if x == 't' { String::from_str("'-t' には引数が必要です") } else { String::from_str("'-S' には引数が必要です") };
                assert(mv_cluster(sv, i as int, chars, k - 1) == Err::<(Seq<MvView>, int), Seq<char>>(m@));
                return Err(m);
            };
            let ghost before = flags_view(out@);
            out.push(if x == 't' { MvFlag::TargetDir(val) } else { MvFlag::Suffix(val) });
            proof {
                assert(flags_view(out@) =~= before + flags_view(out@).skip(before.len() as int));
                assert(flags_view(out@).skip(before.len() as int) =~= seq![out@.last()@]);
            }
            return Ok((out, last));
        }
        let f = if x == 'f' { MvFlag::Force }
            else if x == 'i' { MvFlag::Interactive }
            else if x == 'n' { MvFlag::NoClobber }
            else if x == 'v' { MvFlag::Verbose }
            else if x == 'u' { MvFlag::Update }
            else if x == 'b' { MvFlag::BackupIfOff }
            else if x == 'T' { MvFlag::NoTargetDir }
            else {
                let mut m = String::from_str("不正なオプション: '-");
                crate::text::push_char(&mut m, x);
                m.append("'");
                proof {
                    assert(m@ =~= "不正なオプション: '-"@ + seq![x] + "'"@);
                    assert(mv_cluster(sv, i as int, chars, k - 1) == Err::<(Seq<MvView>, int), Seq<char>>(m@));
                }
                return Err(m);
            };
        let ghost before = flags_view(out@);
        out.push(f);
        proof {
            assert(flags_view(out@) =~= before.push(out@.last()@));
            match mv_cluster(sv, i as int, chars, k as int) {
                Ok((fs, last)) => {
                    assert(before + (seq![out@.last()@] + fs) =~= flags_view(out@) + fs);
                },
                Err(e) => {},
            }
        }
        k += 1;
    }
    proof {
        assert(flags_view(out@) + Seq::<MvView>::empty() =~= flags_view(out@));
    }
    Ok((out, i))
}

/// Reads the command line of `mv` (`args[0]` is the program's name): the
/// options in order and the operands, or the first error's message, as
/// `mv_args_spec` says.
pub fn parse_args(args: &[String]) -> (r: Result<(Vec<MvFlag>, Vec<String>), String>)
    ensures
        match mv_args_spec(crate::find::expression::strings_view(args@)) {
            Ok((fs, ts)) => r is Ok && flags_view(r->Ok_0.0@) == fs && crate::find::expression::strings_view(r->Ok_0.1@) == ts,
            Err(e) => r is Err && r->Err_0@ == e,
        },
{
    let ghost sv = crate::find::expression::strings_view(args@);
    let mut flags: Vec<MvFlag> = Vec::new();
    let mut targets: Vec<String> = Vec::new();
    let mut rest = false;
    proof {
        assert(flags_view(flags@) =~= Seq::<MvView>::empty());
        assert(crate::find::expression::strings_view(targets@) =~= Seq::<Seq<char>>::empty());
        reveal_strlit("--");
    }
    if args.len() == 0 {
        return Ok((flags, targets));
    }
    let mut i: usize = 1;
    while i < args.len()
        invariant
            1 <= i <= args.len(),
            sv == crate::find::expression::strings_view(args@),
            "--"@ == seq!['-', '-'],
            mv_args_from(sv, 1, false, Seq::empty(), Seq::empty())
                == mv_args_from(sv, i as int, rest, flags_view(flags@), crate::find::expression::strings_view(targets@)),
        decreases args.len() - i,
    {
        let a = chars_of(args[i].as_str());
        assert(a@ == sv[i as int]);
        let ghost tv = crate::find::expression::strings_view(targets@);
        let ghost fv = flags_view(flags@);
        if !rest && chars_eq_str(&a, "--") {
            rest = true;
            i += 1;
        } else if !rest && crate::text::starts_with_str(&a, "--") {
            match read_long(args, i) {
                Ok((f, last)) => {
                    flags.push(f);
                    proof {
                        assert(flags_view(flags@) =~= fv.push(flags@.last()@));
                    }
                    i = last + 1;
                },
                Err(e) => {
                    return Err(e);
                },
            }
        } else if !rest && a.len() > 1 && a[0] == '-' {
            proof {
                lemma_mv_cluster(sv, i as int, a@.skip(1), 0);
            }
            match read_cluster(args, i) {
                Ok((mut fs, last)) => {
                    let ghost added = flags_view(fs@);
                    flags.append(&mut fs);
                    proof {
                        assert(flags_view(flags@) =~= fv + added);
                    }
                    i = last + 1;
                },
                Err(e) => {
                    return Err(e);
                },
            }
        } else {
            targets.push(args[i].clone());
            proof {
                assert(crate::find::expression::strings_view(targets@) =~= tv.push(sv[i as int]));
            }
            i += 1;
        }
    }
    let mut has_t = false;
    let mut has_no_t = false;
    let mut k: usize = 0;
    let ghost fv = flags_view(flags@);
    while k < flags.len()
        invariant
            k <= flags.len(),
            fv == flags_view(flags@),
            has_t == exists|j: int| 0 <= j < k && fv[j] is TargetDir,
            has_no_t == exists|j: int| 0 <= j < k && fv[j] is NoTargetDir,
        decreases flags.len() - k,
    {
        match &flags[k] {
            MvFlag::TargetDir(_) => {
                has_t = true;
            },
            MvFlag::NoTargetDir => {
                has_no_t = true;
            },
            _ => {},
        }
        proof {
            assert(fv[k as int] == flags@[k as int]@);
            if fv[k as int] is TargetDir {
                assert(0 <= k < k + 1 && fv[k as int] is TargetDir);
            }
            if fv[k as int] is NoTargetDir {
                assert(0 <= k < k + 1 && fv[k as int] is NoTargetDir);
            }
        }
        k += 1;
    }
    assert(mv_args_from(sv, 1, false, Seq::empty(), Seq::empty()) == Ok::<(Seq<MvView>, Seq<Seq<char>>), Seq<char>>(
        (fv, crate::find::expression::strings_view(targets@))));
    if has_t && has_no_t {
        return Err(String::from_str("--target-directory (-t) と --no-target-directory (-T) は同時に指定できません"));
    }
    Ok((flags, targets))
}

} // verus!

verus! {

/// Stripping trailing slashes leaves none, and doing it twice is doing it
/// once.
pub proof fn lemma_strip_slashes_idempotent(path: Seq<char>)
    ensures
        strip_slashes_spec(strip_slashes_spec(path)) == strip_slashes_spec(path),
        strip_slashes_spec(path).len() > 0 ==> strip_slashes_spec(path).last() != '/' && strip_slashes_spec(path).last() != '\\',
    decreases path.len(),
{
    if path.len() > 0 && (path.last() == '/' || path.last() == '\\') {
        lemma_strip_slashes_idempotent(path.drop_last());
    }
}

} // verus!

verus! {

/// What the file system says about one move, as the caller found it.
#[derive(Debug, Clone, Copy)]
pub struct MoveFacts {
    pub src_exists: bool,
    /// Source and destination are the same file.
    pub same_file: bool,
    /// They are, and their names differ only in case.
    pub case_only: bool,
    pub src_is_dir: bool,
    /// The destination lies inside the source directory.
    pub into_itself: bool,
    pub dest_exists: bool,
    pub dest_is_dir: bool,
    /// The source is newer than the destination (asked only with `-u`).
    pub src_newer: bool,
}

/// The settings a move depends on.
#[derive(Debug, Clone, Copy)]
pub struct MoveSettings {
    pub force: bool,
    pub interactive: bool,
    pub no_clobber: bool,
    pub update: bool,
    pub backup: bool,
}

/// What to do for one move.
#[derive(Debug, PartialEq, Eq)]
pub enum MoveStep {
    /// Refuse, with this message.
    Fail(String),
    /// Leave the destination alone.
    Skip,
    /// Ask this question first, then decide again with the answer.
    Ask(String),
    /// Rename in place (only the case of the name changes).
    CaseRename,
    /// Rename, first backing the destination up or removing the (empty)
    /// directory it is.
    Rename { backup: bool, remove_dest_dir: bool },
}

/// The same, as values.
pub enum StepView {
    Fail(Seq<char>),
    Skip,
    Ask(Seq<char>),
    CaseRename,
    Rename { backup: bool, remove_dest_dir: bool },
}

impl View for MoveStep {
    type V = StepView;

    open spec fn view(&self) -> StepView {
        match self {
            MoveStep::Fail(m) => StepView::Fail(m@),
            MoveStep::Skip => StepView::Skip,
            MoveStep::Ask(q) => StepView::Ask(q@),
            MoveStep::CaseRename => StepView::CaseRename,
            MoveStep::Rename { backup, remove_dest_dir } => StepView::Rename { backup: *backup, remove_dest_dir: *remove_dest_dir },
        }
    }
}

/// The decisions of one move of `src` to `dest`, in order: a missing
/// source, the same file (renamed in place when only the case differs), a
/// directory into itself; then, over an existing destination, `-n`, `-u`,
/// the question of `-i` (`answer` once asked), a directory and a
/// non-directory over each other, and a backup or the removal of the
/// destination directory.
pub open spec fn move_step_spec(src: Seq<char>, dest: Seq<char>, f: MoveFacts, s: MoveSettings, answer: Option<bool>) -> StepView {
    if !f.src_exists {
        StepView::Fail("'"@ + src + "' を stat できません: そのようなファイルやディレクトリはありません"@)
    } else if f.same_file {
        if f.case_only {
            StepView::CaseRename
        } else {
            StepView::Fail("'"@ + src + "' と '"@ + dest + "' は同じファイルです"@)
        }
    } else if f.src_is_dir && f.into_itself {
        StepView::Fail("'"@ + src + "' を自分自身のサブディレクトリ '"@ + dest + "' に移動できません"@)
    } else if f.dest_exists {
        if s.no_clobber {
            StepView::Skip
        } else if s.update && !f.src_newer {
            StepView::Skip
        } else if s.interactive && !s.force && answer != Some(true) {
            match answer {
                None => StepView::Ask("mv: '"@ + dest + "' を上書きしますか?"@),
                Some(_) => StepView::Skip,
            }
        } else if f.dest_is_dir && !f.src_is_dir {
            StepView::Fail("ディレクトリ '"@ + dest + "' を非ディレクトリで上書きできません"@)
        } else if !f.dest_is_dir && f.src_is_dir {
            StepView::Fail("非ディレクトリ '"@ + dest + "' をディレクトリで上書きできません"@)
        } else {
            StepView::Rename { backup: s.backup, remove_dest_dir: !s.backup && f.dest_is_dir }
        }
    } else {
        StepView::Rename { backup: false, remove_dest_dir: false }
    }
}

/// The answer to `-i` decides only the question: a confirmed move is the
/// move made without `-i`, a refused one leaves the destination alone, and
/// when nothing would be asked the answer changes nothing. A question is
/// asked only with `-i` (and no `-f`), over an existing destination, before
/// an answer is given. In particular a confirmed overwrite of a file by a
/// file, with no `-n` and no `-u` reason to keep the destination, renames.
pub proof fn lemma_answer_decides(src: Seq<char>, dest: Seq<char>, f: MoveFacts, s: MoveSettings, a: Option<bool>)
    ensures
        move_step_spec(src, dest, f, s, Some(true)) == move_step_spec(src, dest, f, MoveSettings { interactive: false, ..s }, a),
        move_step_spec(src, dest, f, s, None) is Ask ==> move_step_spec(src, dest, f, s, Some(false)) == StepView::Skip,
        !(move_step_spec(src, dest, f, s, None) is Ask) ==> move_step_spec(src, dest, f, s, a) == move_step_spec(src, dest, f, s, None),
        move_step_spec(src, dest, f, s, a) is Ask ==> a is None && s.interactive && !s.force && f.dest_exists,
        f.src_exists && !f.same_file && !f.src_is_dir && !f.dest_is_dir && f.dest_exists && !s.no_clobber
            && !(s.update && !f.src_newer) ==> move_step_spec(src, dest, f, s, Some(true))
            == (StepView::Rename { backup: s.backup, remove_dest_dir: false }),
{
}

/// `a`, `x`, `b`, `y`, `c` one after the other.
fn text5(a: &str, x: &str, b: &str, y: &str, c: &str) -> (r: String)
    ensures
        r@ == a@ + x@ + b@ + y@ + c@,
{
    let mut s = join3(a, x, b);
    s.append(y);
    s.append(c);
    s
}

/// What to do for one move of `src` to `dest`, as `move_step_spec` says;
/// `answer` is the reply to a question asked before, if any.
pub fn move_step(src: &str, dest: &str, f: MoveFacts, s: MoveSettings, answer: Option<bool>) -> (r: MoveStep)
    ensures
        r@ == move_step_spec(src@, dest@, f, s, answer),
{
    if !f.src_exists {
        MoveStep::Fail(join3("'", src, "' を stat できません: そのようなファイルやディレクトリはありません"))
    } else if f.same_file {
        if f.case_only {
            MoveStep::CaseRename
        } else {
            MoveStep::Fail(text5("'", src, "' と '", dest, "' は同じファイルです"))
        }
    } else if f.src_is_dir && f.into_itself {
        MoveStep::Fail(text5("'", src, "' を自分自身のサブディレクトリ '", dest, "' に移動できません"))
    } else if f.dest_exists {
        if s.no_clobber {
            MoveStep::Skip
        } else if s.update && !f.src_newer {
            MoveStep::Skip
        } else if s.interactive && !s.force && !matches!(answer, Some(true)) {
            match answer {
                None => MoveStep::Ask(join3("mv: '", dest, "' を上書きしますか?")),
                Some(_) => MoveStep::Skip,
            }
        } else if f.dest_is_dir && !f.src_is_dir {
            MoveStep::Fail(join3("ディレクトリ '", dest, "' を非ディレクトリで上書きできません"))
        } else if !f.dest_is_dir && f.src_is_dir {
            MoveStep::Fail(join3("非ディレクトリ '", dest, "' をディレクトリで上書きできません"))
        } else {
            MoveStep::Rename { backup: s.backup, remove_dest_dir: !s.backup && f.dest_is_dir }
        }
    } else {
        MoveStep::Rename { backup: false, remove_dest_dir: false }
    }
}

} // verus!
