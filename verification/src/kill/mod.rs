//! The library side of `kill`: its table of signals, the reading of
//! signal names and numbers, its command line, and the choice of the
//! processes that a pattern names.
use vstd::prelude::*;
use crate::text::{chars_of, chars_eq_str, is_prefix, starts_with_str, parse_i32, parse_int_spec, string_of, slice_chars,
    to_uppercase, uppercase_of, to_lowercase, lowercase_of, wrap_chars, decimal, decimal_string, push_char};

pub mod args;
pub mod targets;

verus! {

/// The name of signal `num` in the table of `kill`, without `SIG`.
pub open spec fn signal_name_spec(num: int) -> Option<Seq<char>> {
    if num == 1 {
        Some("HUP"@)
    } else if num == 2 {
        Some("INT"@)
    } else if num == 3 {
        Some("QUIT"@)
    } else if num == 4 {
        Some("ILL"@)
    } else if num == 5 {
        Some("TRAP"@)
    } else if num == 6 {
        Some("ABRT"@)
    } else if num == 7 {
        Some("BUS"@)
    } else if num == 8 {
        Some("FPE"@)
    } else if num == 9 {
        Some("KILL"@)
    } else if num == 10 {
        Some("USR1"@)
    } else if num == 11 {
        Some("SEGV"@)
    } else if num == 12 {
        Some("USR2"@)
    } else if num == 13 {
        Some("PIPE"@)
    } else if num == 14 {
        Some("ALRM"@)
    } else if num == 15 {
        Some("TERM"@)
    } else if num == 16 {
        Some("STKFLT"@)
    } else if num == 17 {
        Some("CHLD"@)
    } else if num == 18 {
        Some("CONT"@)
    } else if num == 19 {
        Some("STOP"@)
    } else if num == 20 {
        Some("TSTP"@)
    } else if num == 21 {
        Some("TTIN"@)
    } else if num == 22 {
        Some("TTOU"@)
    } else if num == 23 {
        Some("URG"@)
    } else if num == 24 {
        Some("XCPU"@)
    } else if num == 25 {
        Some("XFSZ"@)
    } else if num == 26 {
        Some("VTALRM"@)
    } else if num == 27 {
        Some("PROF"@)
    } else if num == 28 {
        Some("WINCH"@)
    } else if num == 29 {
        Some("IO"@)
    } else if num == 30 {
        Some("PWR"@)
    } else if num == 31 {
        Some("SYS"@)
    } else {
        None
    }
}

/// The name of signal `num`, if the table has it.
pub fn signal_name(num: i32) -> (r: Option<&'static str>)
    ensures
        match r {
            Some(s) => signal_name_spec(num as int) == Some(s@),
            None => signal_name_spec(num as int) is None,
        },
{
    match num {
        1 => Some("HUP"),
        2 => Some("INT"),
        3 => Some("QUIT"),
        4 => Some("ILL"),
        5 => Some("TRAP"),
        6 => Some("ABRT"),
        7 => Some("BUS"),
        8 => Some("FPE"),
        9 => Some("KILL"),
        10 => Some("USR1"),
        11 => Some("SEGV"),
        12 => Some("USR2"),
        13 => Some("PIPE"),
        14 => Some("ALRM"),
        15 => Some("TERM"),
        16 => Some("STKFLT"),
        17 => Some("CHLD"),
        18 => Some("CONT"),
        19 => Some("STOP"),
        20 => Some("TSTP"),
        21 => Some("TTIN"),
        22 => Some("TTOU"),
        23 => Some("URG"),
        24 => Some("XCPU"),
        25 => Some("XFSZ"),
        26 => Some("VTALRM"),
        27 => Some("PROF"),
        28 => Some("WINCH"),
        29 => Some("IO"),
        30 => Some("PWR"),
        31 => Some("SYS"),
        _ => None,
    }
}

/// The first signal from `n` on (up to 31) whose name is `name`.
pub open spec fn signal_number_from(name: Seq<char>, n: int) -> Option<int>
    decreases 32 - n,
{
    if n > 31 {
        None
    } else if signal_name_spec(n) == Some(name) {
        Some(n)
    } else {
        signal_number_from(name, n + 1)
    }
}

/// The number of the signal called `name` (without `SIG`).
pub open spec fn signal_number_spec(name: Seq<char>) -> Option<int> {
    signal_number_from(name, 1)
}

/// The number of the signal called `name`, if the table has it.
pub fn signal_number(name: &[char]) -> (r: Option<i32>)
    ensures
        match r {
            Some(n) => signal_number_spec(name@) == Some(n as int),
            None => signal_number_spec(name@) is None,
        },
{
    let mut n: i32 = 1;
    while n <= 31
        invariant
            1 <= n <= 32,
            signal_number_spec(name@) == signal_number_from(name@, n as int),
        decreases 32 - n,
    {
        match signal_name(n) {
            Some(s) => {
                if chars_eq_str(name, s) {
                    return Some(n);
                }
            },
            None => {},
        }
        n += 1;
    }
    None
}

/// `s` with every leading copy of `p` taken off, as `trim_start_matches`.
pub open spec fn strip_all_prefix(s: Seq<char>, p: Seq<char>) -> Seq<char>
    decreases s.len(),
{
    if p.len() > 0 && is_prefix(p, s) {
        strip_all_prefix(s.skip(p.len() as int), p)
    } else {
        s
    }
}

/// `s` without its leading `SIG`s.
pub fn strip_sig(s: &[char]) -> (r: Vec<char>)
    ensures
        r@ == strip_all_prefix(s@, "SIG"@),
{
    proof {
        reveal_strlit("SIG");
    }
    let mut i: usize = 0;
    proof {
        assert(s@.skip(0) =~= s@);
    }
    while s.len() - i >= 3 && s[i] == 'S' && s[i + 1] == 'I' && s[i + 2] == 'G'
        invariant
            i <= s.len(),
            strip_all_prefix(s@, "SIG"@) == strip_all_prefix(s@.skip(i as int), "SIG"@),
            "SIG"@ == seq!['S', 'I', 'G'],
        decreases s.len() - i,
    {
        proof {
            assert(s@.skip(i as int).take(3) =~= seq!['S', 'I', 'G']);
            assert(is_prefix("SIG"@, s@.skip(i as int)));
            assert(s@.skip(i as int).skip(3) =~= s@.skip(i + 3));
        }
        i += 3;
    }
    proof {
        if is_prefix("SIG"@, s@.skip(i as int)) {
            assert(s@.skip(i as int).take(3)[0] == s@[i as int]);
            assert(s@.skip(i as int).take(3)[1] == s@[i + 1]);
            assert(s@.skip(i as int).take(3)[2] == s@[i + 2]);
        }
    }
    let r = slice_chars(s, i, s.len());
    proof {
        assert(r@ =~= s@.skip(i as int));
    }
    r
}

/// `v` with every leading copy of `lit` taken off.
pub fn strip_prefix_all(v: &[char], lit: &str) -> (r: Vec<char>)
    requires
        lit@.len() > 0,
    ensures
        r@ == strip_all_prefix(v@, lit@),
{
    let n = chars_of(lit).len();
    let mut i: usize = 0;
    proof {
        assert(v@.skip(0) =~= v@);
    }
    loop
        invariant
            i <= v.len(),
            n == lit@.len(),
            n > 0,
            strip_all_prefix(v@, lit@) == strip_all_prefix(v@.skip(i as int), lit@),
        decreases v.len() - i,
    {
        let rest = slice_chars(v, i, v.len());
        assert(rest@ =~= v@.skip(i as int));
        if !starts_with_str(&rest, lit) {
            return rest;
        }
        proof {
            assert(v@.skip(i as int).skip(n as int) =~= v@.skip(i + n));
        }
        i += n;
    }
}

/// The text of an integer, with a `-` when it is negative.
pub open spec fn int_text(n: int) -> Seq<char> {
    if n < 0 { "-"@ + decimal((-n) as nat) } else { decimal(n as nat) }
}

/// The decimal text of `n`.
pub fn i32_text(n: i32) -> (r: String)
    ensures
        r@ == int_text(n as int),
{
    if n < 0 {
        let m: u64 = (-(n as i64)) as u64;
        let d = decimal_string(m);
        let mut s = String::from_str("-");
        s.append(d.as_str());
        s
    } else {
        decimal_string(n as u64)
    }
}

/// The signal of a name or number (`TERM`, `sigkill`, `9`): a number must
/// lie in 0..=64; a name is read in upper case without leading `SIG`s.
pub open spec fn parse_signal_spec(s: Seq<char>) -> Result<int, Seq<char>> {
    match parse_int_spec(s, i32::MIN as int, i32::MAX as int) {
        Some(n) => if n < 0 || n > 64 {
            Err("不正なシグナル番号: '"@ + int_text(n) + "'"@)
        } else {
            Ok(n)
        },
        None => match signal_number_spec(strip_all_prefix(uppercase_of(s), "SIG"@)) {
            Some(n) => Ok(n),
            None => Err("不明なシグナル名: '"@ + s + "'"@),
        },
    }
}

/// The signal of a name or number, or the message of why there is none.
pub fn parse_signal(s: &str) -> (r: Result<i32, String>)
    ensures
        match parse_signal_spec(s@) {
            Ok(n) => r is Ok && r->Ok_0 as int == n,
            Err(e) => r is Err && r->Err_0@ == e,
        },
{
    let v = chars_of(s);
    match parse_i32(&v) {
        Some(num) => {
            if num < 0 || num > 64 {
                let t = i32_text(num);
                let tv = chars_of(t.as_str());
                return Err(wrap_chars("不正なシグナル番号: '", &tv, "'"));
            }
            Ok(num)
        },
        None => {
            let up = to_uppercase(s);
            let uv = chars_of(up.as_str());
            let name = strip_sig(&uv);
            match signal_number(&name) {
                Some(n) => Ok(n),
                None => Err(wrap_chars("不明なシグナル名: '", &v, "'")),
            }
        },
    }
}

/// The names of the signals from `n` to 31, each followed by a space but
/// the last.
pub open spec fn names_from(n: int) -> Seq<char>
    decreases 32 - n,
{
    if n > 31 || n < 1 {
        Seq::empty()
    } else {
        signal_name_spec(n).unwrap() + (if n < 31 { " "@ } else { Seq::empty() }) + names_from(n + 1)
    }
}

/// What `kill -l` prints: every signal name, separated by spaces.
pub fn signal_names_line() -> (r: String)
    ensures
        r@ == names_from(1),
{
    let mut out = String::new();
    let mut n: i32 = 1;
    while n <= 31
        invariant
            1 <= n <= 32,
            out@ + names_from(n as int) == names_from(1),
        decreases 32 - n,
    {
        let ghost before = out@;
        match signal_name(n) {
            Some(s) => {
                out.append(s);
            },
            None => {},
        }
        if n < 31 {
            out.append(" ");
        }
        proof {
            assert(before + names_from(n as int) =~= out@ + names_from(n + 1));
        }
        n += 1;
    }
    proof {
        assert(out@ + Seq::<char>::empty() =~= out@);
    }
    out
}

/// What `kill -l ARG` prints for one argument: a signal number gives its
/// name, a name (any case, leading `SIG`s aside) its number; else the
/// message (`Err`) for the error stream.
pub open spec fn signal_conversion_spec(arg: Seq<char>) -> Result<Seq<char>, Seq<char>> {
    match parse_int_spec(arg, i32::MIN as int, i32::MAX as int) {
        Some(n) => match signal_name_spec(n) {
            Some(name) => Ok(name),
            None => Err("kill: "@ + int_text(n) + ": 不明なシグナル"@),
        },
        None => match signal_number_spec(strip_all_prefix(uppercase_of(arg), "SIG"@)) {
            Some(n) => Ok(decimal(n as nat)),
            None => Err("kill: "@ + arg + ": 不明なシグナル"@),
        },
    }
}

/// The line that `kill -l ARG` prints for one argument, or its message.
pub fn signal_conversion(arg: &str) -> (r: Result<String, String>)
    ensures
        match signal_conversion_spec(arg@) {
            Ok(t) => r is Ok && r->Ok_0@ == t,
            Err(e) => r is Err && r->Err_0@ == e,
        },
{
    let v = chars_of(arg);
    match parse_i32(&v) {
        Some(num) => match signal_name(num) {
            Some(name) => Ok(String::from_str(name)),
            None => {
                let t = i32_text(num);
                let tv = chars_of(t.as_str());
                Err(wrap_chars("kill: ", &tv, ": 不明なシグナル"))
            },
        },
        None => {
            let up = to_uppercase(arg);
            let uv = chars_of(up.as_str());
            let name = strip_sig(&uv);
            match signal_number(&name) {
                Some(n) => {
                    proof {
                        assert(signal_number_spec(name@) == Some(n as int));
                        lemma_number_in_table(name@, 1);
                    }
                    Ok(decimal_string(n as u64))
                },
                None => Err(wrap_chars("kill: ", &v, ": 不明なシグナル")),
            }
        },
    }
}

proof fn lemma_number_in_table(name: Seq<char>, n: int)
    ensures
        match signal_number_from(name, n) {
            Some(k) => n <= k <= 31,
            None => true,
        },
    decreases 32 - n,
{
    if n <= 31 && signal_name_spec(n) != Some(name) {
        lemma_number_in_table(name, n + 1);
    }
}

/// `t` right-aligned in `w` columns.
pub open spec fn pad_left(t: Seq<char>, w: nat) -> Seq<char> {
    if t.len() >= w { t } else { Seq::new((w - t.len()) as nat, |i: int| ' ') + t }
}

/// `t` left-aligned in `w` columns.
pub open spec fn pad_right(t: Seq<char>, w: nat) -> Seq<char> {
    if t.len() >= w { t } else { t + Seq::new((w - t.len()) as nat, |i: int| ' ') }
}

/// The entries of `kill -L` from signal `n` on: the number in two columns,
/// `) `, the name in eight columns, and a line break after every fourth.
pub open spec fn table_from(n: int) -> Seq<char>
    decreases 32 - n,
{
    if n > 31 || n < 1 {
        Seq::empty()
    } else {
        pad_left(decimal(n as nat), 2) + ") "@ + pad_right(signal_name_spec(n).unwrap(), 8)
            + (if n % 4 == 0 { "\n"@ } else { Seq::empty() }) + table_from(n + 1)
    }
}

/// What `kill -L` prints: the table, and a last line break since the
/// signals do not fill its last row.
pub open spec fn signal_table_spec() -> Seq<char> {
    table_from(1) + "\n"@
}

/// Appends spaces up to `w` columns.
fn pad_to(s: &mut String, len: usize, w: usize)
    ensures
        final(s)@ == old(s)@ + (if len >= w { Seq::empty() } else { Seq::new((w - len) as nat, |i: int| ' ') }),
{
    let ghost start = s@;
    let mut k = len;
    while k < w
        invariant
            len <= k <= w || (k == len && len >= w),
            s@ == start + Seq::new((k - len) as nat, |i: int| ' '),
        decreases w - k,
    {
        crate::text::push_char(s, ' ');
        proof {
            assert(s@ =~= start + Seq::new((k + 1 - len) as nat, |i: int| ' '));
        }
        k += 1;
    }
    proof {
        if len >= w {
            assert(s@ =~= start + Seq::<char>::empty());
        } else {
            assert(k == w);
        }
    }
}

/// The table that `kill -L` prints.
pub fn signal_table() -> (r: String)
    ensures
        r@ == signal_table_spec(),
{
    proof {
        reveal_strlit(") ");
        reveal_strlit("\n");
    }
    let mut out = String::new();
    let mut n: i32 = 1;
    while n <= 31
        invariant
            1 <= n <= 32,
            out@ + table_from(n as int) == table_from(1),
        decreases 32 - n,
    {
        let ghost before = out@;
        let d = decimal_string(n as u64);
        let dv = chars_of(d.as_str());
        pad_to(&mut out, dv.len(), 2);
        out.append(d.as_str());
        let ghost numbered = out@;
        out.append(") ");
        match signal_name(n) {
            Some(name) => {
                let nv = chars_of(name);
                out.append(name);
                pad_to(&mut out, nv.len(), 8);
            },
            None => {},
        }
        if n % 4 == 0 {
            out.append("\n");
        }
        proof {
            assert(signal_name_spec(n as int) is Some);
            let nm = signal_name_spec(n as int).unwrap();
            assert(before + table_from(n as int) =~= out@ + table_from(n + 1));
        }
        n += 1;
    }
    out.append("\n");
    proof {
        assert(table_from(32) =~= Seq::<char>::empty());
    }
    out
}

/// How `kill` treats one resolved operand: a process number, a process
/// group (refused), `0` (refused), or a process name.
#[derive(Debug, PartialEq, Eq)]
pub enum TargetKind {
    Pid(u32),
    Group(i32),
    Zero,
    Name,
}

/// How one operand is treated.
pub open spec fn target_kind_spec(t: Seq<char>) -> TargetKind {
    match parse_int_spec(t, i32::MIN as int, i32::MAX as int) {
        Some(n) => if n < 0 {
            TargetKind::Group(n as i32)
        } else if n == 0 {
            TargetKind::Zero
        } else {
            TargetKind::Pid(n as u32)
        },
        None => TargetKind::Name,
    }
}

/// How one resolved operand is treated.
pub fn target_kind(t: &str) -> (r: TargetKind)
    ensures
        r == target_kind_spec(t@),
{
    let v = chars_of(t);
    match parse_i32(&v) {
        Some(n) => if n < 0 {
            TargetKind::Group(n)
        } else if n == 0 {
            TargetKind::Zero
        } else {
            TargetKind::Pid(n as u32)
        },
        None => TargetKind::Name,
    }
}

/// Whether a process whose program is `exe` is the one called `name`: the
/// same name, case aside, with or without `.exe`.
pub open spec fn names_process_spec(exe: Seq<char>, name: Seq<char>) -> bool {
    lowercase_of(exe) == lowercase_of(name) || lowercase_of(exe) == lowercase_of(name) + ".exe"@
}

/// Whether a process whose program is `exe` is the one called `name`.
pub fn names_process(exe: &str, name: &str) -> (r: bool)
    ensures
        r == names_process_spec(exe@, name@),
{
    let e = to_lowercase(exe);
    let n = to_lowercase(name);
    let mut with_exe = n.clone();
    with_exe.append(".exe");
    crate::text::str_eq(e.as_str(), n.as_str()) || crate::text::str_eq(e.as_str(), with_exe.as_str())
}

} // verus!

verus! {

proof fn lemma_names_differ(n: int, k: int)
    requires
        1 <= k < n <= 31,
    ensures
        signal_name_spec(k) != signal_name_spec(n),
{
    reveal_strlit("HUP");
    reveal_strlit("INT");
    reveal_strlit("QUIT");
    reveal_strlit("ILL");
    reveal_strlit("TRAP");
    reveal_strlit("ABRT");
    reveal_strlit("BUS");
    reveal_strlit("FPE");
    reveal_strlit("KILL");
    reveal_strlit("USR1");
    reveal_strlit("SEGV");
    reveal_strlit("USR2");
    reveal_strlit("PIPE");
    reveal_strlit("ALRM");
    reveal_strlit("TERM");
    reveal_strlit("STKFLT");
    reveal_strlit("CHLD");
    reveal_strlit("CONT");
    reveal_strlit("STOP");
    reveal_strlit("TSTP");
    reveal_strlit("TTIN");
    reveal_strlit("TTOU");
    reveal_strlit("URG");
    reveal_strlit("XCPU");
    reveal_strlit("XFSZ");
    reveal_strlit("VTALRM");
    reveal_strlit("PROF");
    reveal_strlit("WINCH");
    reveal_strlit("IO");
    reveal_strlit("PWR");
    reveal_strlit("SYS");
    let a = signal_name_spec(k).unwrap();
    let b = signal_name_spec(n).unwrap();
    if a == b {
        assert(a.len() == b.len());
        assert(a[0] == b[0]);
        assert(a[a.len() - 1] == b[b.len() - 1]);
        if a.len() > 2 {
            assert(a[1] == b[1]);
            assert(a[2] == b[2]);
        }
    }
}

proof fn lemma_number_from(n: int, k: int)
    requires
        1 <= k <= n <= 31,
    ensures
        signal_number_from(signal_name_spec(n).unwrap(), k) == Some(n),
    decreases n - k,
{
    if k < n {
        lemma_names_differ(n, k);
        assert(signal_name_spec(k) is Some);
        lemma_number_from(n, k + 1);
    }
}

/// Each signal's name leads back to its number: the table names every
/// signal once.
pub proof fn lemma_name_number_roundtrip(n: int)
    requires
        1 <= n <= 31,
    ensures
        signal_name_spec(n) is Some,
        signal_number_spec(signal_name_spec(n).unwrap()) == Some(n),
{
    lemma_number_from(n, 1);
}


/// The signals are numbered as on Linux, from `HUP` (1) to `SYS` (31), and
/// each name gives back its number; no other number has a name.
pub proof fn lemma_linux_signal_numbers()
    ensures
        signal_name_spec(1) == Some("HUP"@) && signal_number_spec("HUP"@) == Some(1int),
        signal_name_spec(2) == Some("INT"@) && signal_number_spec("INT"@) == Some(2int),
        signal_name_spec(3) == Some("QUIT"@) && signal_number_spec("QUIT"@) == Some(3int),
        signal_name_spec(4) == Some("ILL"@) && signal_number_spec("ILL"@) == Some(4int),
        signal_name_spec(5) == Some("TRAP"@) && signal_number_spec("TRAP"@) == Some(5int),
        signal_name_spec(6) == Some("ABRT"@) && signal_number_spec("ABRT"@) == Some(6int),
        signal_name_spec(7) == Some("BUS"@) && signal_number_spec("BUS"@) == Some(7int),
        signal_name_spec(8) == Some("FPE"@) && signal_number_spec("FPE"@) == Some(8int),
        signal_name_spec(9) == Some("KILL"@) && signal_number_spec("KILL"@) == Some(9int),
        signal_name_spec(10) == Some("USR1"@) && signal_number_spec("USR1"@) == Some(10int),
        signal_name_spec(11) == Some("SEGV"@) && signal_number_spec("SEGV"@) == Some(11int),
        signal_name_spec(12) == Some("USR2"@) && signal_number_spec("USR2"@) == Some(12int),
        signal_name_spec(13) == Some("PIPE"@) && signal_number_spec("PIPE"@) == Some(13int),
        signal_name_spec(14) == Some("ALRM"@) && signal_number_spec("ALRM"@) == Some(14int),
        signal_name_spec(15) == Some("TERM"@) && signal_number_spec("TERM"@) == Some(15int),
        signal_name_spec(16) == Some("STKFLT"@) && signal_number_spec("STKFLT"@) == Some(16int),
        signal_name_spec(17) == Some("CHLD"@) && signal_number_spec("CHLD"@) == Some(17int),
        signal_name_spec(18) == Some("CONT"@) && signal_number_spec("CONT"@) == Some(18int),
        signal_name_spec(19) == Some("STOP"@) && signal_number_spec("STOP"@) == Some(19int),
        signal_name_spec(20) == Some("TSTP"@) && signal_number_spec("TSTP"@) == Some(20int),
        signal_name_spec(21) == Some("TTIN"@) && signal_number_spec("TTIN"@) == Some(21int),
        signal_name_spec(22) == Some("TTOU"@) && signal_number_spec("TTOU"@) == Some(22int),
        signal_name_spec(23) == Some("URG"@) && signal_number_spec("URG"@) == Some(23int),
        signal_name_spec(24) == Some("XCPU"@) && signal_number_spec("XCPU"@) == Some(24int),
        signal_name_spec(25) == Some("XFSZ"@) && signal_number_spec("XFSZ"@) == Some(25int),
        signal_name_spec(26) == Some("VTALRM"@) && signal_number_spec("VTALRM"@) == Some(26int),
        signal_name_spec(27) == Some("PROF"@) && signal_number_spec("PROF"@) == Some(27int),
        signal_name_spec(28) == Some("WINCH"@) && signal_number_spec("WINCH"@) == Some(28int),
        signal_name_spec(29) == Some("IO"@) && signal_number_spec("IO"@) == Some(29int),
        signal_name_spec(30) == Some("PWR"@) && signal_number_spec("PWR"@) == Some(30int),
        signal_name_spec(31) == Some("SYS"@) && signal_number_spec("SYS"@) == Some(31int),
        forall|n: int| !(1 <= n <= 31) ==> signal_name_spec(n) is None,
{
    lemma_name_number_roundtrip(1);
    lemma_name_number_roundtrip(2);
    lemma_name_number_roundtrip(3);
    lemma_name_number_roundtrip(4);
    lemma_name_number_roundtrip(5);
    lemma_name_number_roundtrip(6);
    lemma_name_number_roundtrip(7);
    lemma_name_number_roundtrip(8);
    lemma_name_number_roundtrip(9);
    lemma_name_number_roundtrip(10);
    lemma_name_number_roundtrip(11);
    lemma_name_number_roundtrip(12);
    lemma_name_number_roundtrip(13);
    lemma_name_number_roundtrip(14);
    lemma_name_number_roundtrip(15);
    lemma_name_number_roundtrip(16);
    lemma_name_number_roundtrip(17);
    lemma_name_number_roundtrip(18);
    lemma_name_number_roundtrip(19);
    lemma_name_number_roundtrip(20);
    lemma_name_number_roundtrip(21);
    lemma_name_number_roundtrip(22);
    lemma_name_number_roundtrip(23);
    lemma_name_number_roundtrip(24);
    lemma_name_number_roundtrip(25);
    lemma_name_number_roundtrip(26);
    lemma_name_number_roundtrip(27);
    lemma_name_number_roundtrip(28);
    lemma_name_number_roundtrip(29);
    lemma_name_number_roundtrip(30);
    lemma_name_number_roundtrip(31);
}

} // verus!
