//! The tests and actions of a `find` expression, and the small value
//! types they carry: file types, numeric and size comparisons, and
//! permission modes (octal or symbolic, as `chmod` writes them).
use vstd::prelude::*;
use crate::text::{chars_of, slice_chars, parse_i64, parse_int_spec, parse_int_radix_spec, parse_unsigned_radix};

verus! {

/// A file type as `-type` names it by one letter.
#[derive(Debug, Clone, Copy, PartialEq, Eq, Structural)]
pub enum FileType {
    BlockDevice,
    CharDevice,
    Directory,
    RegularFile,
    SymbolicLink,
    Pipe,
    Socket,
}

/// The letter that names each file type.
pub open spec fn file_type_char(t: FileType) -> char {
    match t {
        FileType::BlockDevice => 'b',
        FileType::CharDevice => 'c',
        FileType::Directory => 'd',
        FileType::RegularFile => 'f',
        FileType::SymbolicLink => 'l',
        FileType::Pipe => 'p',
        FileType::Socket => 's',
    }
}

/// The file type that a letter names, if any.
pub open spec fn file_type_from_char(c: char) -> Option<FileType> {
    if c == 'b' { Some(FileType::BlockDevice) }
    else if c == 'c' { Some(FileType::CharDevice) }
    else if c == 'd' { Some(FileType::Directory) }
    else if c == 'f' { Some(FileType::RegularFile) }
    else if c == 'l' { Some(FileType::SymbolicLink) }
    else if c == 'p' { Some(FileType::Pipe) }
    else if c == 's' { Some(FileType::Socket) }
    else { None }
}

impl FileType {
    /// The file type that the letter names, if any.
    pub fn from_char(c: char) -> (r: Option<Self>)
        ensures
            r == file_type_from_char(c),
            match r {
                Some(t) => file_type_char(t) == c,
                None => forall|t: FileType| file_type_char(t) != c,
            },
    {
        match c {
            'b' => Some(FileType::BlockDevice),
            'c' => Some(FileType::CharDevice),
            'd' => Some(FileType::Directory),
            'f' => Some(FileType::RegularFile),
            'l' => Some(FileType::SymbolicLink),
            'p' => Some(FileType::Pipe),
            's' => Some(FileType::Socket),
            _ => None,
        }
    }

    /// The letter that names the file type.
    pub fn to_char(self) -> (c: char)
        ensures
            c == file_type_char(self),
    {
        match self {
            FileType::BlockDevice => 'b',
            FileType::CharDevice => 'c',
            FileType::Directory => 'd',
            FileType::RegularFile => 'f',
            FileType::SymbolicLink => 'l',
            FileType::Pipe => 'p',
            FileType::Socket => 's',
        }
    }
}

/// `n`, `+n` or `-n` of the numeric tests.
#[derive(Debug, Clone, Copy, PartialEq, Eq, Structural)]
pub enum NumericComparison {
    Exactly(i64),
    GreaterThan(i64),
    LessThan(i64),
}

/// What `NumericComparison::parse` gives for a string: a leading `+` means
/// "more than", a leading `-` "less than", anything else "exactly"; the
/// rest must read as an `i64` (which itself may carry a sign).
pub open spec fn numeric_comparison_spec(s: Seq<char>) -> Option<NumericComparison> {
    if s.len() == 0 {
        None
    } else if s[0] == '+' {
        match parse_int_spec(s.drop_first(), i64::MIN as int, i64::MAX as int) {
            Some(n) => Some(NumericComparison::GreaterThan(n as i64)),
            None => None,
        }
    } else if s[0] == '-' {
        match parse_int_spec(s.drop_first(), i64::MIN as int, i64::MAX as int) {
            Some(n) => Some(NumericComparison::LessThan(n as i64)),
            None => None,
        }
    } else {
        match parse_int_spec(s, i64::MIN as int, i64::MAX as int) {
            Some(n) => Some(NumericComparison::Exactly(n as i64)),
            None => None,
        }
    }
}

/// Whether `value` satisfies the comparison.
pub open spec fn numeric_matches(c: NumericComparison, value: int) -> bool {
    match c {
        NumericComparison::Exactly(n) => value == n,
        NumericComparison::GreaterThan(n) => value > n,
        NumericComparison::LessThan(n) => value < n,
    }
}

impl NumericComparison {
    /// Reads `n`, `+n` or `-n`.
    pub fn parse(s: &str) -> (r: Option<Self>)
        ensures
            r == numeric_comparison_spec(s@),
    {
        let v = chars_of(s);
        Self::parse_chars(&v)
    }

    /// Reads `n`, `+n` or `-n` from characters.
    pub fn parse_chars(v: &[char]) -> (r: Option<Self>)
        ensures
            r == numeric_comparison_spec(v@),
    {
        if v.len() == 0 {
            return None;
        }
        if v[0] == '+' || v[0] == '-' {
            let rest = slice_chars(v, 1, v.len());
            proof {
                assert(rest@ =~= v@.drop_first());
            }
            match parse_i64(&rest) {
                Some(n) => if v[0] == '+' {
                    Some(NumericComparison::GreaterThan(n))
                } else {
                    Some(NumericComparison::LessThan(n))
                },
                None => None,
            }
        } else {
            match parse_i64(v) {
                Some(n) => Some(NumericComparison::Exactly(n)),
                None => None,
            }
        }
    }

    /// Whether `value` satisfies the comparison.
    pub fn matches(&self, value: i64) -> (r: bool)
        ensures
            r == numeric_matches(*self, value as int),
    {
        match self {
            NumericComparison::Exactly(n) => value == *n,
            NumericComparison::GreaterThan(n) => value > *n,
            NumericComparison::LessThan(n) => value < *n,
        }
    }
}

/// The unit of a `-size` argument.
#[derive(Debug, Clone, Copy, PartialEq, Eq, Structural)]
pub enum SizeUnit {
    Bytes,
    Words,
    Blocks512,
    Kibi,
    Mebi,
    Gibi,
}

/// The number of bytes in one unit.
pub open spec fn unit_bytes(u: SizeUnit) -> nat {
    match u {
        SizeUnit::Bytes => 1,
        SizeUnit::Words => 2,
        SizeUnit::Blocks512 => 512,
        SizeUnit::Kibi => 1024,
        SizeUnit::Mebi => 1024 * 1024,
        SizeUnit::Gibi => 1024 * 1024 * 1024,
    }
}

/// The unit that a trailing letter of `-size` names.
pub open spec fn size_suffix_unit(c: char) -> Option<SizeUnit> {
    if c == 'c' {
        Some(SizeUnit::Bytes)
    } else if c == 'w' {
        Some(SizeUnit::Words)
    } else if c == 'b' {
        Some(SizeUnit::Blocks512)
    } else if c == 'k' {
        Some(SizeUnit::Kibi)
    } else if c == 'M' {
        Some(SizeUnit::Mebi)
    } else if c == 'G' {
        Some(SizeUnit::Gibi)
    } else {
        None
    }
}

impl SizeUnit {
    /// The number of bytes in one unit.
    pub fn multiplier(&self) -> (r: u64)
        ensures
            r == unit_bytes(*self),
    {
        match self {
            SizeUnit::Bytes => 1,
            SizeUnit::Words => 2,
            SizeUnit::Blocks512 => 512,
            SizeUnit::Kibi => 1024,
            SizeUnit::Mebi => 1024 * 1024,
            SizeUnit::Gibi => 1024 * 1024 * 1024,
        }
    }
}

/// A `-size` argument: a numeric comparison counted in units.
#[derive(Debug, Clone, Copy, PartialEq, Eq, Structural)]
pub struct SizeComparison {
    pub comparison: NumericComparison,
    pub unit: SizeUnit,
}

/// What `SizeComparison::parse` gives: a trailing unit letter, when there
/// is one, picks the unit (512-byte blocks otherwise) and the rest is a
/// numeric comparison.
pub open spec fn size_comparison_spec(s: Seq<char>) -> Option<SizeComparison> {
    if s.len() == 0 {
        None
    } else {
        let (num, unit) = match size_suffix_unit(s.last()) {
            Some(u) => (s.drop_last(), u),
            None => (s, SizeUnit::Blocks512),
        };
        match numeric_comparison_spec(num) {
            Some(c) => Some(SizeComparison { comparison: c, unit }),
            None => None,
        }
    }
}

/// The size counted in the unit, rounded up (bytes are counted exactly).
pub open spec fn size_in_units(size: u64, unit: SizeUnit) -> int {
    if unit == SizeUnit::Bytes {
        size as int
    } else {
        (size + unit_bytes(unit) - 1) / (unit_bytes(unit) as int)
    }
}

impl SizeComparison {
    /// Reads a `-size` argument such as `+1M` or `100c`.
    pub fn parse(s: &str) -> (r: Option<Self>)
        ensures
            r == size_comparison_spec(s@),
    {
        let v = chars_of(s);
        if v.len() == 0 {
            return None;
        }
        let last = v[v.len() - 1];
        let unit = if last == 'c' {
            Some(SizeUnit::Bytes)
        } else if last == 'w' {
            Some(SizeUnit::Words)
        } else if last == 'b' {
            Some(SizeUnit::Blocks512)
        } else if last == 'k' {
            Some(SizeUnit::Kibi)
        } else if last == 'M' {
            Some(SizeUnit::Mebi)
        } else if last == 'G' {
            Some(SizeUnit::Gibi)
        } else {
            None
        };
        let (num, unit) = match unit {
            Some(u) => {
                let n = slice_chars(&v, 0, v.len() - 1);
                proof {
                    assert(n@ =~= v@.drop_last());
                }
                (n, u)
            },
            None => (v, SizeUnit::Blocks512),
        };
        match NumericComparison::parse_chars(&num) {
            Some(c) => Some(SizeComparison { comparison: c, unit }),
            None => None,
        }
    }

    /// Whether a file of `size` bytes satisfies the comparison. The count
    /// in units is taken as an `i64`, as the comparison values are.
    pub fn matches(&self, size: u64) -> (r: bool)
        requires
            self.unit != SizeUnit::Bytes ==> size + unit_bytes(self.unit) <= u64::MAX,
        ensures
            r == numeric_matches(self.comparison, #[verifier::truncate] (size_in_units(size, self.unit) as i64) as int),
    {
        let unit_size = self.unit.multiplier();
        let units = match self.unit {
            SizeUnit::Bytes => #[verifier::truncate] (size as i64),
            _ => #[verifier::truncate] (((size + unit_size - 1) / unit_size) as i64),
        };
        self.comparison.matches(units)
    }
}

/// `-size`: `+n` means more than `n` units, `-n` fewer, `n` exactly; the
/// letters `c`, `w`, `b`, `k`, `M`, `G` count bytes, 2-byte words,
/// 512-byte blocks, KiB, MiB and GiB, and no letter counts 512-byte
/// blocks; a size is counted in whole units, rounded up.
pub proof fn lemma_size_units(d: Seq<char>, c: char, size: u64, unit: SizeUnit)
    ensures
        numeric_comparison_spec(seq!['+'] + d) is Some ==> numeric_comparison_spec(seq!['+'] + d)->Some_0 is GreaterThan,
        numeric_comparison_spec(seq!['-'] + d) is Some ==> numeric_comparison_spec(seq!['-'] + d)->Some_0 is LessThan,
        forall|n: i64, v: int| #[trigger] numeric_matches(NumericComparison::GreaterThan(n), v) <==> v > n,
        forall|n: i64, v: int| #[trigger] numeric_matches(NumericComparison::LessThan(n), v) <==> v < n,
        forall|n: i64, v: int| #[trigger] numeric_matches(NumericComparison::Exactly(n), v) <==> v == n,
        size_suffix_unit('c') == Some(SizeUnit::Bytes) && unit_bytes(SizeUnit::Bytes) == 1,
        size_suffix_unit('w') == Some(SizeUnit::Words) && unit_bytes(SizeUnit::Words) == 2,
        size_suffix_unit('b') == Some(SizeUnit::Blocks512) && unit_bytes(SizeUnit::Blocks512) == 512,
        size_suffix_unit('k') == Some(SizeUnit::Kibi) && unit_bytes(SizeUnit::Kibi) == 1024,
        size_suffix_unit('M') == Some(SizeUnit::Mebi) && unit_bytes(SizeUnit::Mebi) == 1048576,
        size_suffix_unit('G') == Some(SizeUnit::Gibi) && unit_bytes(SizeUnit::Gibi) == 1073741824,
        !(c == 'c' || c == 'w' || c == 'b' || c == 'k' || c == 'M' || c == 'G') ==> size_suffix_unit(c) is None,
        !(c == 'c' || c == 'w' || c == 'b' || c == 'k' || c == 'M' || c == 'G') && size_comparison_spec(d.push(c)) is Some
            ==> size_comparison_spec(d.push(c))->Some_0.unit == SizeUnit::Blocks512,
        size_in_units(size, unit) * unit_bytes(unit) >= size,
        size > 0 ==> (size_in_units(size, unit) - 1) * unit_bytes(unit) < size,
        size_in_units(size, unit) >= 0,
{
    assert((seq!['+'] + d)[0] == '+');
    assert((seq!['-'] + d)[0] == '-');
    assert(d.push(c).last() == c);
    let u = unit_bytes(unit) as int;
    let q = size_in_units(size, unit);
    if unit != SizeUnit::Bytes {
        assert(u > 0);
        assert(q == (size + u - 1) / u);
        assert(q * u <= size + u - 1 && size + u - 1 < (q + 1) * u && q >= 0) by (nonlinear_arith)
            requires
                u > 0,
                size >= 0,
                q == (size + u - 1) / u,
        ;
        assert(q * u >= size) by (nonlinear_arith)
            requires
                size + u - 1 < (q + 1) * u,
        ;
        assert(size > 0 ==> (q - 1) * u < size) by (nonlinear_arith)
            requires
                q * u <= size + u - 1,
                u > 0,
        ;
    }
}

/// A `-perm` argument: the mode exactly, all of its bits (`-mode`), or any
/// of its bits (`/mode`).
#[derive(Debug, Clone, Copy, PartialEq, Eq, Structural)]
pub enum PermMode {
    Exact(u32),
    All(u32),
    Any(u32),
}

/// A letter naming whom a symbolic mode applies to.
pub open spec fn is_who_char(c: char) -> bool {
    c == 'u' || c == 'g' || c == 'o' || c == 'a'
}

/// The bits (user 1, group 2, other 4) that a who-letter selects.
pub open spec fn who_char_bits(c: char) -> u8 {
    if c == 'u' {
        1
    } else if c == 'g' {
        2
    } else if c == 'o' {
        4
    } else {
        7
    }
}

/// The index of the first character at or after `i` that is not a
/// who-letter.
pub open spec fn who_end(s: Seq<char>, i: int) -> int
    decreases s.len() - i,
{
    if 0 <= i < s.len() && is_who_char(s[i]) {
        who_end(s, i + 1)
    } else {
        i
    }
}

/// The union of the bits that the who-letters of `s` select.
pub open spec fn who_mask(s: Seq<char>) -> u8
    decreases s.len(),
{
    if s.len() == 0 {
        0
    } else {
        who_mask(s.drop_last()) | who_char_bits(s.last())
    }
}

/// `perm` placed at the user, group and other positions that `who`
/// selects (each position a further 3 bits up from `shift_base`).
pub open spec fn permission_bits_spec(who: u8, perm: u32, shift_base: u32) -> u32 {
    let b0: u32 = 0;
    let b1: u32 = if who & 1 != 0 { b0 | (perm << ((6 + shift_base) as u32)) } else { b0 };
    let b2: u32 = if who & 2 != 0 { b1 | (perm << ((3 + shift_base) as u32)) } else { b1 };
    if who & 4 != 0 { b2 | (perm << shift_base) } else { b2 }
}

/// The three permission bits of the class `source_who` of `mode`, copied
/// to the classes that `target_who` selects.
pub open spec fn copy_bits_spec(mode: u32, target_who: u8, source_who: u8) -> u32 {
    let source: u32 = if source_who & 1 != 0 {
        (mode >> 6u32) & 7
    } else if source_who & 2 != 0 {
        (mode >> 3u32) & 7
    } else {
        mode & 7
    };
    let b0: u32 = 0;
    let b1: u32 = if target_who & 1 != 0 { b0 | (source << 6u32) } else { b0 };
    let b2: u32 = if target_who & 2 != 0 { b1 | (source << 3u32) } else { b1 };
    if target_who & 4 != 0 { b2 | source } else { b2 }
}

/// The bits that `=` clears for the classes `who` selects: their
/// permissions and their special bit.
pub open spec fn who_clear_mask_spec(who: u8) -> u32 {
    let m0: u32 = 0;
    let m1: u32 = if who & 1 != 0 { m0 | 0o4700 } else { m0 };
    let m2: u32 = if who & 2 != 0 { m1 | 0o2070 } else { m1 };
    if who & 4 != 0 { m2 | 0o1007 } else { m2 }
}

/// The bits that one permission letter contributes, or `None` for a
/// letter that is not one.
pub open spec fn perm_char_bits(mode: u32, who: u8, umask: u32, c: char) -> Option<u32> {
    if c == 'r' {
        Some(permission_bits_spec(who, 4, 0) & !umask)
    } else if c == 'w' {
        Some(permission_bits_spec(who, 2, 0) & !umask)
    } else if c == 'x' {
        Some(permission_bits_spec(who, 1, 0) & !umask)
    } else if c == 'X' {
        if mode & 0o111 != 0 {
            Some(permission_bits_spec(who, 1, 0) & !umask)
        } else {
            Some(0)
        }
    } else if c == 's' {
        let s0: u32 = 0;
        let s1: u32 = if who & 1 != 0 { s0 | 0o4000 } else { s0 };
        Some(if who & 2 != 0 { s1 | 0o2000 } else { s1 })
    } else if c == 't' {
        Some(0o1000)
    } else if c == 'u' {
        Some(copy_bits_spec(mode, who, 1))
    } else if c == 'g' {
        Some(copy_bits_spec(mode, who, 2))
    } else if c == 'o' {
        Some(copy_bits_spec(mode, who, 4))
    } else {
        None
    }
}

/// The union of the bits of the permission letters `s`, or `None` when one
/// of them is not a permission letter.
pub open spec fn perm_fold(mode: u32, who: u8, umask: u32, s: Seq<char>) -> Option<u32>
    decreases s.len(),
{
    if s.len() == 0 {
        Some(0)
    } else {
        match perm_fold(mode, who, umask, s.drop_last()) {
            None => None,
            Some(b) => match perm_char_bits(mode, who, umask, s.last()) {
                None => None,
                Some(x) => Some(b | x),
            },
        }
    }
}

proof fn lemma_perm_fold_none_extends(mode: u32, who: u8, umask: u32, s: Seq<char>, i: int, j: int)
    requires
        0 <= i <= j <= s.len(),
        perm_fold(mode, who, umask, s.take(i)) is None,
    ensures
        perm_fold(mode, who, umask, s.take(j)) is None,
    decreases j - i,
{
    if i < j {
        lemma_perm_fold_none_extends(mode, who, umask, s, i, j - 1);
        assert(s.take(j).drop_last() =~= s.take(j - 1));
    }
}

/// One clause of a symbolic mode (`[ugoa]*[+-=][rwxXstugo]*`) applied to
/// `mode`. Without who-letters the clause applies to all classes and, for
/// `+` and `-`, the umask's permission bits are left out.
pub open spec fn apply_symbolic_part_spec(mode: u32, s: Seq<char>, umask: u32) -> Option<u32> {
    let k = who_end(s, 0);
    let who_specified = k > 0;
    let who: u8 = if who_specified { who_mask(s.take(k)) } else { 7 };
    if k >= s.len() {
        None
    } else {
        let op = s[k];
        if !(op == '+' || op == '-' || op == '=') {
            None
        } else {
            let um: u32 = if !who_specified && op != '=' { umask & 0o777 } else { 0 };
            match perm_fold(mode, who, um, s.skip(k + 1)) {
                None => None,
                Some(p) => if op == '+' {
                    Some(mode | p)
                } else if op == '-' {
                    Some(mode & !p)
                } else {
                    Some((mode & !who_clear_mask_spec(who)) | p)
                },
            }
        }
    }
}

/// The index of the first `,` at or after `i`, or the length.
pub open spec fn comma_at_or_after(s: Seq<char>, i: int) -> int
    decreases s.len() - i,
{
    if 0 <= i < s.len() && s[i] != ',' {
        comma_at_or_after(s, i + 1)
    } else {
        i
    }
}

pub proof fn lemma_comma_bounds(s: Seq<char>, i: int)
    requires
        0 <= i <= s.len(),
    ensures
        i <= comma_at_or_after(s, i) <= s.len(),
        comma_at_or_after(s, i) < s.len() ==> s[comma_at_or_after(s, i)] == ',',
        forall|j: int| i <= j < comma_at_or_after(s, i) ==> s[j] != ',',
    decreases s.len() - i,
{
    if i < s.len() && s[i] != ',' {
        lemma_comma_bounds(s, i + 1);
    }
}

pub proof fn lemma_who_end_bounds(s: Seq<char>, i: int)
    requires
        0 <= i <= s.len(),
    ensures
        i <= who_end(s, i) <= s.len(),
        who_end(s, i) < s.len() ==> !is_who_char(s[who_end(s, i)]),
        forall|j: int| i <= j < who_end(s, i) ==> is_who_char(s[j]),
    decreases s.len() - i,
{
    if i < s.len() && is_who_char(s[i]) {
        lemma_who_end_bounds(s, i + 1);
    }
}

/// The comma-separated clauses of `s` applied in turn to `mode`.
pub open spec fn symbolic_from(mode: u32, s: Seq<char>, umask: u32) -> Option<u32>
    decreases s.len(),
{
    let k = comma_at_or_after(s, 0);
    match apply_symbolic_part_spec(mode, s.take(k), umask) {
        None => None,
        Some(m) => if k >= s.len() {
            Some(m)
        } else {
            proof {
                lemma_comma_bounds(s, 0);
            }
            symbolic_from(m, s.skip(k + 1), umask)
        },
    }
}

/// A mode written in octal (permission bits kept) or symbolically.
pub open spec fn parse_mode_spec(s: Seq<char>, umask: u32) -> Option<u32> {
    match parse_int_radix_spec(s, 0, u32::MAX as int, 8) {
        Some(n) => Some((n as u32) & 0o7777),
        None => match symbolic_from(0, s, umask) {
            Some(m) => Some(m & 0o7777),
            None => None,
        },
    }
}

/// What `PermMode::parse_with_umask` gives: `-mode` for all bits,
/// `/mode` for any bit, otherwise the exact mode.
pub open spec fn perm_mode_spec(s: Seq<char>, umask: u32) -> Option<PermMode> {
    if s.len() == 0 {
        None
    } else if s[0] == '-' {
        match parse_mode_spec(s.drop_first(), umask) {
            Some(m) => Some(PermMode::All(m)),
            None => None,
        }
    } else if s[0] == '/' {
        match parse_mode_spec(s.drop_first(), umask) {
            Some(m) => Some(PermMode::Any(m)),
            None => None,
        }
    } else {
        match parse_mode_spec(s, umask) {
            Some(m) => Some(PermMode::Exact(m)),
            None => None,
        }
    }
}

/// Whether a file mode satisfies the `-perm` test.
pub open spec fn perm_matches(p: PermMode, file_mode: u32) -> bool {
    let file_perm = file_mode & 0o7777;
    match p {
        PermMode::Exact(m) => file_perm == m,
        PermMode::All(m) => (file_perm & m) == m,
        PermMode::Any(m) => m == 0 || (file_perm & m) != 0,
    }
}

/// `-perm`: `mode` asks for exactly these permission bits, `-mode` for
/// all of them (more may be set), `/mode` for at least one of them (any
/// file when there are none); so an exact match is an all-bits match,
/// which is an any-bit match when some bit is asked for.
pub proof fn lemma_perm_kinds(m: u32, f: u32)
    ensures
        perm_matches(PermMode::Exact(m), f) ==> perm_matches(PermMode::All(m), f),
        perm_matches(PermMode::All(m), f) && m != 0 ==> perm_matches(PermMode::Any(m), f),
        perm_matches(PermMode::All(m), f) <==> ((f & 0o7777u32) | m) == (f & 0o7777u32),
        perm_matches(PermMode::Any(m), f) <==> (m == 0 || (m & (f & 0o7777u32)) != 0),
        perm_matches(PermMode::Exact(m), f) ==> m <= 0o7777,
{
    let a = f & 0o7777u32;
    assert(((a & m) == m) <==> ((a | m) == a)) by (bit_vector);
    assert((a & m) == (m & a)) by (bit_vector);
    assert((a & a) == a) by (bit_vector);
    assert(m != 0 && (a & m) == m ==> (a & m) != 0) by (bit_vector);
    assert(a <= 0o7777u32) by (bit_vector)
        requires a == f & 0o7777u32;
}

impl PermMode {
    /// Reads a `-perm` argument. A symbolic clause without who-letters is
    /// taken with an empty umask, as the tools' platform reports it; see
    /// `parse_with_umask` for another umask.
    pub fn parse(s: &str) -> (r: Option<Self>)
        ensures
            r == perm_mode_spec(s@, 0),
    {
        Self::parse_with_umask(s, 0)
    }

    /// Reads a `-perm` argument with the process umask `umask`.
    pub fn parse_with_umask(s: &str, umask: u32) -> (r: Option<Self>)
        ensures
            r == perm_mode_spec(s@, umask),
    {
        let v = chars_of(s);
        if v.len() == 0 {
            return None;
        }
        if v[0] == '-' || v[0] == '/' {
            let rest = slice_chars(&v, 1, v.len());
            proof {
                assert(rest@ =~= v@.drop_first());
            }
            match Self::parse_mode(&rest, umask) {
                Some(m) => if v[0] == '-' {
                    Some(PermMode::All(m))
                } else {
                    Some(PermMode::Any(m))
                },
                None => None,
            }
        } else {
            match Self::parse_mode(&v, umask) {
                Some(m) => Some(PermMode::Exact(m)),
                None => None,
            }
        }
    }

    fn parse_mode(v: &[char], umask: u32) -> (r: Option<u32>)
        ensures
            r == parse_mode_spec(v@, umask),
    {
        match parse_unsigned_radix(v, u32::MAX as u64, 8) {
            Some(n) => Some((n as u32) & 0o7777),
            None => Self::parse_symbolic_mode(v, umask),
        }
    }

    fn parse_symbolic_mode(v: &[char], umask: u32) -> (r: Option<u32>)
        ensures
            r == match symbolic_from(0, v@, umask) {
                Some(m) => Some(m & 0o7777),
                None => None,
            },
    {
        match Self::symbolic_from_exec(0, v, umask) {
            Some(m) => Some(m & 0o7777),
            None => None,
        }
    }

    fn symbolic_from_exec(mode: u32, v: &[char], umask: u32) -> (r: Option<u32>)
        ensures
            r == symbolic_from(mode, v@, umask),
        decreases v.len(),
    {
        let mut k: usize = 0;
        while k < v.len() && v[k] != ','
            invariant
                k <= v@.len(),
                comma_at_or_after(v@, k as int) == comma_at_or_after(v@, 0),
            decreases v.len() - k,
        {
            k += 1;
        }
        proof {
            lemma_comma_bounds(v@, 0);
        }
        let part = slice_chars(v, 0, k);
        proof {
            assert(part@ =~= v@.take(k as int));
        }
        match Self::apply_symbolic_part(mode, &part, umask) {
            None => None,
            Some(m) => if k >= v.len() {
                Some(m)
            } else {
                let rest = slice_chars(v, k + 1, v.len());
                proof {
                    assert(rest@ =~= v@.skip(k + 1));
                }
                Self::symbolic_from_exec(m, &rest, umask)
            },
        }
    }

    #[verifier::loop_isolation(false)]
    fn apply_symbolic_part(mode: u32, s: &[char], umask: u32) -> (r: Option<u32>)
        ensures
            r == apply_symbolic_part_spec(mode, s@, umask),
    {
        let mut k: usize = 0;
        let mut who: u8 = 0;
        while k < s.len() && (s[k] == 'u' || s[k] == 'g' || s[k] == 'o' || s[k] == 'a')
            invariant
                k <= s@.len(),
                who_end(s@, k as int) == who_end(s@, 0),
                who == who_mask(s@.take(k as int)),
            decreases s.len() - k,
        {
            let c = s[k];
            let bit: u8 = if c == 'u' {
                1
            } else if c == 'g' {
                2
            } else if c == 'o' {
                4
            } else {
                7
            };
            proof {
                assert(s@.take(k + 1).drop_last() =~= s@.take(k as int));
            }
            who = who | bit;
            k += 1;
        }
        proof {
            lemma_who_end_bounds(s@, 0);
        }
        let who_specified = k > 0;
        if !who_specified {
            who = 7;
        }
        if k >= s.len() {
            return None;
        }
        let op = s[k];
        if !(op == '+' || op == '-' || op == '=') {
            return None;
        }
        let um: u32 = if !who_specified && op != '=' { umask & 0o777 } else { 0 };
        let ghost tail = s@.skip(k + 1);
        let mut perm_bits: u32 = 0;
        let mut i = k + 1;
        while i < s.len()
            invariant
                k + 1 <= i <= s@.len(),
                tail == s@.skip(k + 1),
                perm_fold(mode, who, um, tail.take(i - k - 1)) == Some(perm_bits),
            decreases s.len() - i,
        {
            let c = s[i];
            proof {
                assert(tail.take(i - k).drop_last() =~= tail.take(i - k - 1));
                assert(tail.take(i - k).last() == c);
            }
            let x = match Self::perm_char(mode, who, um, c) {
                Some(x) => x,
                None => {
                    proof {
                        lemma_perm_fold_none_extends(mode, who, um, tail, i - k, tail.len() as int);
                        assert(tail.take(tail.len() as int) =~= tail);
                    }
                    return None;
                },
            };
            perm_bits = perm_bits | x;
            i += 1;
        }
        proof {
            assert(tail.take(i - k - 1) =~= tail);
        }
        let clear_mask = Self::who_clear_mask(who);
        if op == '+' {
            Some(mode | perm_bits)
        } else if op == '-' {
            Some(mode & !perm_bits)
        } else {
            Some((mode & !clear_mask) | perm_bits)
        }
    }

    fn perm_char(mode: u32, who: u8, umask: u32, c: char) -> (r: Option<u32>)
        ensures
            r == perm_char_bits(mode, who, umask, c),
    {
        if c == 'r' {
            Some(Self::apply_umask(Self::permission_bits(who, 4, 0), umask))
        } else if c == 'w' {
            Some(Self::apply_umask(Self::permission_bits(who, 2, 0), umask))
        } else if c == 'x' {
            Some(Self::apply_umask(Self::permission_bits(who, 1, 0), umask))
        } else if c == 'X' {
            if mode & 0o111 != 0 {
                Some(Self::apply_umask(Self::permission_bits(who, 1, 0), umask))
            } else {
                Some(0)
            }
        } else if c == 's' {
            let mut bits: u32 = 0;
            if who & 1 != 0 {
                bits = bits | 0o4000;
            }
            if who & 2 != 0 {
                bits = bits | 0o2000;
            }
            Some(bits)
        } else if c == 't' {
            Some(0o1000)
        } else if c == 'u' {
            Some(Self::copy_bits(mode, who, 1))
        } else if c == 'g' {
            Some(Self::copy_bits(mode, who, 2))
        } else if c == 'o' {
            Some(Self::copy_bits(mode, who, 4))
        } else {
            None
        }
    }

    fn permission_bits(who: u8, perm: u32, shift_base: u32) -> (r: u32)
        requires
            shift_base <= 20,
        ensures
            r == permission_bits_spec(who, perm, shift_base),
    {
        let mut bits: u32 = 0;
        if who & 1 != 0 {
            bits = bits | (perm << (6 + shift_base));
        }
        if who & 2 != 0 {
            bits = bits | (perm << (3 + shift_base));
        }
        if who & 4 != 0 {
            bits = bits | (perm << shift_base);
        }
        bits
    }

    fn copy_bits(mode: u32, target_who: u8, source_who: u8) -> (r: u32)
        ensures
            r == copy_bits_spec(mode, target_who, source_who),
    {
        let source = if source_who & 1 != 0 {
            (mode >> 6u32) & 7
        } else if source_who & 2 != 0 {
            (mode >> 3u32) & 7
        } else {
            mode & 7
        };
        let mut bits: u32 = 0;
        if target_who & 1 != 0 {
            bits = bits | (source << 6u32);
        }
        if target_who & 2 != 0 {
            bits = bits | (source << 3u32);
        }
        if target_who & 4 != 0 {
            bits = bits | source;
        }
        bits
    }

    fn who_clear_mask(who: u8) -> (r: u32)
        ensures
            r == who_clear_mask_spec(who),
    {
        let mut mask: u32 = 0;
        if who & 1 != 0 {
            mask = mask | 0o4700;
        }
        if who & 2 != 0 {
            mask = mask | 0o2070;
        }
        if who & 4 != 0 {
            mask = mask | 0o1007;
        }
        mask
    }

    fn apply_umask(bits: u32, umask: u32) -> (r: u32)
        ensures
            r == bits & !umask,
    {
        bits & !umask
    }

    /// Whether a file mode satisfies the test.
    pub fn matches(&self, file_mode: u32) -> (r: bool)
        ensures
            r == perm_matches(*self, file_mode),
    {
        let file_perm = file_mode & 0o7777;
        match self {
            PermMode::Exact(mode) => file_perm == *mode,
            PermMode::All(mode) => (file_perm & *mode) == *mode,
            PermMode::Any(mode) => *mode == 0 || (file_perm & *mode) != 0,
        }
    }
}

/// A point in time: whole seconds since the Unix epoch and nanoseconds.
#[derive(Debug, Clone, Copy, PartialEq, Eq, Structural)]
pub struct Timestamp {
    pub secs: i64,
    pub nanos: u32,
}

/// The time in nanoseconds since the epoch.
pub open spec fn ts_nanos(t: Timestamp) -> int {
    t.secs * 1_000_000_000 + t.nanos
}

/// Whole seconds from `earlier` to `later`, or 0 when `later` is not
/// later (as `SystemTime::duration_since(..).unwrap_or(ZERO)` counts).
pub open spec fn secs_between(later: Timestamp, earlier: Timestamp) -> int {
    let d = ts_nanos(later) - ts_nanos(earlier);
    if d > 0 {
        d / 1_000_000_000
    } else {
        0
    }
}

impl Timestamp {
    /// Whether `self` is strictly later than `other`.
    pub fn is_after(&self, other: &Timestamp) -> (r: bool)
        requires
            self.nanos < 1_000_000_000,
            other.nanos < 1_000_000_000,
        ensures
            r == (ts_nanos(*self) > ts_nanos(*other)),
    {
        self.secs > other.secs || (self.secs == other.secs && self.nanos > other.nanos)
    }

    /// Whole seconds from `earlier` to `self`, 0 when `self` is not later.
    pub fn secs_since(&self, earlier: &Timestamp) -> (r: u64)
        requires
            self.nanos < 1_000_000_000,
            earlier.nanos < 1_000_000_000,
        ensures
            r == secs_between(*self, *earlier),
    {
        if !self.is_after(earlier) {
            return 0;
        }
        let ds: i128 = self.secs as i128 - earlier.secs as i128;
        let r: i128 = if self.nanos >= earlier.nanos { ds } else { ds - 1 };
        proof {
            let d = ts_nanos(*self) - ts_nanos(*earlier);
            let dn = self.nanos - earlier.nanos;
            assert(d == ds * 1_000_000_000 + dn);
            if self.nanos >= earlier.nanos {
                assert(d / 1_000_000_000 == ds) by (nonlinear_arith)
                    requires d == ds * 1_000_000_000 + dn, 0 <= dn < 1_000_000_000;
            } else {
                assert(d / 1_000_000_000 == ds - 1) by (nonlinear_arith)
                    requires d == (ds - 1) * 1_000_000_000 + (dn + 1_000_000_000),
                        0 <= dn + 1_000_000_000 < 1_000_000_000;
            }
        }
        r as u64
    }
}

/// Which time stamp of a file a test reads.
#[derive(Debug, Clone, Copy, PartialEq, Eq, Structural)]
pub enum TimeType {
    Access,
    Change,
    Modify,
    Birth,
}

/// `-exec ... ;` runs once per file, `-exec ... {} +` once per batch.
#[derive(Debug, Clone, Copy, PartialEq, Eq, Structural)]
pub enum ExecType {
    Each,
    Batch,
}

/// An action of the expression.
#[derive(Debug, Clone)]
pub enum Action {
    Print,
    Print0,
    FPrint(String),
    FPrint0(String),
    Printf(String),
    FPrintf(String, String),
    Ls,
    FLs(String),
    Exec { command: Vec<String>, exec_type: ExecType, in_dir: bool },
    OkPrompt { command: Vec<String>, in_dir: bool },
    Delete,
    Prune,
    Quit,
}

/// A test of the expression. Glob patterns and regular expressions are
/// kept as their source text; `Regex` holds the anchored pattern.
#[derive(Debug, Clone)]
pub enum Test {
    Name { pattern: String, case_insensitive: bool },
    Path { pattern: String, case_insensitive: bool },
    Lname { pattern: String, case_insensitive: bool },
    Regex { pattern: String, case_insensitive: bool },
    Type(FileType),
    Xtype(FileType),
    Fstype(String),
    Size(SizeComparison),
    Empty,
    Time { time_type: TimeType, comparison: NumericComparison, minutes: bool, daystart: bool },
    Used(NumericComparison),
    Newer { reference_time: Timestamp },
    NewerXY { x: TimeType, y: TimeType, reference: Timestamp },
    User(u32),
    Group(u32),
    Uid(NumericComparison),
    Gid(NumericComparison),
    NoUser,
    NoGroup,
    Perm(PermMode),
    Readable,
    Writable,
    Executable,
    Links(NumericComparison),
    Inum(NumericComparison),
    Samefile { dev: u64, ino: u64 },
    True,
    False,
}

/// A node of the expression tree.
#[derive(Debug)]
pub enum Expression {
    Test(Test),
    Action(Action),
    Not(Box<Expression>),
    And(Box<Expression>, Box<Expression>),
    Or(Box<Expression>, Box<Expression>),
    List(Box<Expression>, Box<Expression>),
}

/// An action with its strings as character sequences.
pub enum SAction {
    Print,
    Print0,
    FPrint(Seq<char>),
    FPrint0(Seq<char>),
    Printf(Seq<char>),
    FPrintf(Seq<char>, Seq<char>),
    Ls,
    FLs(Seq<char>),
    Exec { command: Seq<Seq<char>>, exec_type: ExecType, in_dir: bool },
    OkPrompt { command: Seq<Seq<char>>, in_dir: bool },
    Delete,
    Prune,
    Quit,
}

/// A test with its strings as character sequences.
pub enum STest {
    Name { pattern: Seq<char>, case_insensitive: bool },
    Path { pattern: Seq<char>, case_insensitive: bool },
    Lname { pattern: Seq<char>, case_insensitive: bool },
    Regex { pattern: Seq<char>, case_insensitive: bool },
    Type(FileType),
    Xtype(FileType),
    Fstype(Seq<char>),
    Size(SizeComparison),
    Empty,
    Time { time_type: TimeType, comparison: NumericComparison, minutes: bool, daystart: bool },
    Used(NumericComparison),
    Newer { reference_time: Timestamp },
    NewerXY { x: TimeType, y: TimeType, reference: Timestamp },
    User(u32),
    Group(u32),
    Uid(NumericComparison),
    Gid(NumericComparison),
    NoUser,
    NoGroup,
    Perm(PermMode),
    Readable,
    Writable,
    Executable,
    Links(NumericComparison),
    Inum(NumericComparison),
    Samefile { dev: u64, ino: u64 },
    True,
    False,
}

/// An expression tree with its strings as character sequences.
pub enum SExpr {
    Test(STest),
    Action(SAction),
    Not(Box<SExpr>),
    And(Box<SExpr>, Box<SExpr>),
    Or(Box<SExpr>, Box<SExpr>),
    List(Box<SExpr>, Box<SExpr>),
}

/// The character sequences of a list of strings.
pub open spec fn strings_view(v: Seq<String>) -> Seq<Seq<char>> {
    v.map_values(|s: String| s@)
}

impl View for Action {
    type V = SAction;

    open spec fn view(&self) -> SAction {
        match self {
            Action::Print => SAction::Print,
            Action::Print0 => SAction::Print0,
            Action::FPrint(f) => SAction::FPrint(f@),
            Action::FPrint0(f) => SAction::FPrint0(f@),
            Action::Printf(f) => SAction::Printf(f@),
            Action::FPrintf(f, g) => SAction::FPrintf(f@, g@),
            Action::Ls => SAction::Ls,
            Action::FLs(f) => SAction::FLs(f@),
            Action::Exec { command, exec_type, in_dir } => SAction::Exec {
                command: strings_view(command@),
                exec_type: *exec_type,
                in_dir: *in_dir,
            },
            Action::OkPrompt { command, in_dir } => SAction::OkPrompt {
                command: strings_view(command@),
                in_dir: *in_dir,
            },
            Action::Delete => SAction::Delete,
            Action::Prune => SAction::Prune,
            Action::Quit => SAction::Quit,
        }
    }
}

impl View for Test {
    type V = STest;

    open spec fn view(&self) -> STest {
        match self {
            Test::Name { pattern, case_insensitive } => STest::Name { pattern: pattern@, case_insensitive: *case_insensitive },
            Test::Path { pattern, case_insensitive } => STest::Path { pattern: pattern@, case_insensitive: *case_insensitive },
            Test::Lname { pattern, case_insensitive } => STest::Lname { pattern: pattern@, case_insensitive: *case_insensitive },
            Test::Regex { pattern, case_insensitive } => STest::Regex { pattern: pattern@, case_insensitive: *case_insensitive },
            Test::Type(t) => STest::Type(*t),
            Test::Xtype(t) => STest::Xtype(*t),
            Test::Fstype(f) => STest::Fstype(f@),
            Test::Size(c) => STest::Size(*c),
            Test::Empty => STest::Empty,
            Test::Time { time_type, comparison, minutes, daystart } => STest::Time {
                time_type: *time_type,
                comparison: *comparison,
                minutes: *minutes,
                daystart: *daystart,
            },
            Test::Used(c) => STest::Used(*c),
            Test::Newer { reference_time } => STest::Newer { reference_time: *reference_time },
            Test::NewerXY { x, y, reference } => STest::NewerXY { x: *x, y: *y, reference: *reference },
            Test::User(u) => STest::User(*u),
            Test::Group(g) => STest::Group(*g),
            Test::Uid(c) => STest::Uid(*c),
            Test::Gid(c) => STest::Gid(*c),
            Test::NoUser => STest::NoUser,
            Test::NoGroup => STest::NoGroup,
            Test::Perm(p) => STest::Perm(*p),
            Test::Readable => STest::Readable,
            Test::Writable => STest::Writable,
            Test::Executable => STest::Executable,
            Test::Links(c) => STest::Links(*c),
            Test::Inum(c) => STest::Inum(*c),
            Test::Samefile { dev, ino } => STest::Samefile { dev: *dev, ino: *ino },
            Test::True => STest::True,
            Test::False => STest::False,
        }
    }
}

impl View for Expression {
    type V = SExpr;

    open spec fn view(&self) -> SExpr
        decreases self,
    {
        match self {
            Expression::Test(t) => SExpr::Test(t@),
            Expression::Action(a) => SExpr::Action(a@),
            Expression::Not(e) => SExpr::Not(Box::new((**e)@)),
            Expression::And(a, b) => SExpr::And(Box::new((**a)@), Box::new((**b)@)),
            Expression::Or(a, b) => SExpr::Or(Box::new((**a)@), Box::new((**b)@)),
            Expression::List(a, b) => SExpr::List(Box::new((**a)@), Box::new((**b)@)),
        }
    }
}

} // verus!
