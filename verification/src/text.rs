//! Character-level helpers shared by the tools: conversions between `str`,
//! `String` and `Vec<char>`, comparisons, and decimal integer parsing.
use vstd::prelude::*;

verus! {

/// The characters of `s`, in order.
pub fn chars_of(s: &str) -> (v: Vec<char>)
    ensures
        v@ == s@,
{
    let mut v: Vec<char> = Vec::new();
    for c in it: s.chars()
        invariant
            v@ == it.seq().take(it.index() as int),
    {
        v.push(c);
    }
    v
}

/// `String::push`: appends one character.
#[verifier::external_body]
pub(crate) fn push_char(s: &mut String, c: char)
    ensures
        final(s)@ == old(s)@.push(c),
{
    s.push(c);
}

/// Appends every character of `v` to `s`.
pub fn push_chars(s: &mut String, v: &[char])
    ensures
        final(s)@ == old(s)@ + v@,
{
    let ghost start = s@;
    let mut i: usize = 0;
    while i < v.len()
        invariant
            i <= v@.len(),
            s@ == start + v@.take(i as int),
        decreases v.len() - i,
    {
        push_char(s, v[i]);
        proof {
            assert(v@.take(i + 1) == v@.take(i as int).push(v@[i as int]));
        }
        i += 1;
    }
    proof {
        assert(v@.take(v@.len() as int) == v@);
    }
}

/// A `String` holding exactly the characters of `v`.
pub fn string_of(v: &[char]) -> (s: String)
    ensures
        s@ == v@,
{
    let mut s = String::new();
    push_chars(&mut s, v);
    s
}

/// `a` followed by `b`.
pub fn concat(a: &str, b: &str) -> (s: String)
    ensures
        s@ == a@ + b@,
{
    let mut s = String::from_str(a);
    s.append(b);
    s
}

/// Character-wise equality of two sequences.
pub fn chars_eq(a: &[char], b: &[char]) -> (r: bool)
    ensures
        r == (a@ == b@),
{
    if a.len() != b.len() {
        return false;
    }
    let mut i: usize = 0;
    while i < a.len()
        invariant
            a@.len() == b@.len(),
            i <= a@.len(),
            forall|j: int| 0 <= j < i ==> a@[j] == b@[j],
        decreases a.len() - i,
    {
        if a[i] != b[i] {
            return false;
        }
        i += 1;
    }
    proof {
        assert(a@ =~= b@);
    }
    true
}

/// Equality of two strings.
pub fn str_eq(a: &str, b: &str) -> (r: bool)
    ensures
        r == (a@ == b@),
{
    let va = chars_of(a);
    let vb = chars_of(b);
    chars_eq(&va, &vb)
}

/// Whether the characters `v` spell the string `lit`.
pub fn chars_eq_str(v: &[char], lit: &str) -> (r: bool)
    ensures
        r == (v@ == lit@),
{
    let vl = chars_of(lit);
    chars_eq(v, &vl)
}

/// `p` is a prefix of `s`.
pub open spec fn is_prefix(p: Seq<char>, s: Seq<char>) -> bool {
    p.len() <= s.len() && s.take(p.len() as int) == p
}

/// `p` is a suffix of `s`.
pub open spec fn is_suffix(p: Seq<char>, s: Seq<char>) -> bool {
    p.len() <= s.len() && s.skip(s.len() - p.len()) == p
}

/// Whether `v` begins with the characters of `lit`.
pub fn starts_with_str(v: &[char], lit: &str) -> (r: bool)
    ensures
        r == is_prefix(lit@, v@),
{
    let p = chars_of(lit);
    if p.len() > v.len() {
        return false;
    }
    let mut i: usize = 0;
    while i < p.len()
        invariant
            p@ == lit@,
            p@.len() <= v@.len(),
            i <= p@.len(),
            forall|j: int| 0 <= j < i ==> v@[j] == p@[j],
        decreases p.len() - i,
    {
        if v[i] != p[i] {
            proof {
                assert(v@.take(p@.len() as int)[i as int] != p@[i as int]);
                assert(v@.take(p@.len() as int) != p@);
            }
            return false;
        }
        i += 1;
    }
    proof {
        assert(v@.take(p@.len() as int) =~= p@);
    }
    true
}

/// Whether `v` ends with the characters of `lit`.
pub fn ends_with_str(v: &[char], lit: &str) -> (r: bool)
    ensures
        r == is_suffix(lit@, v@),
{
    let p = chars_of(lit);
    if p.len() > v.len() {
        return false;
    }
    let off = v.len() - p.len();
    let mut i: usize = 0;
    while i < p.len()
        invariant
            p@ == lit@,
            p@.len() <= v@.len(),
            off + p@.len() == v@.len(),
            v@.len() <= usize::MAX,
            i <= p@.len(),
            forall|j: int| 0 <= j < i ==> v@[off + j] == p@[j],
        decreases p.len() - i,
    {
        if v[off + i] != p[i] {
            proof {
                assert(v@.skip(off as int)[i as int] != p@[i as int]);
                assert(v@.skip(off as int) != p@);
            }
            return false;
        }
        i += 1;
    }
    proof {
        assert(v@.skip(off as int) =~= p@);
    }
    true
}

/// Whether `c` occurs in `v`.
pub fn contains_char(v: &[char], c: char) -> (r: bool)
    ensures
        r == v@.contains(c),
{
    let mut i: usize = 0;
    while i < v.len()
        invariant
            i <= v@.len(),
            forall|j: int| 0 <= j < i ==> v@[j] != c,
        decreases v.len() - i,
    {
        if v[i] == c {
            proof {
                assert(v@[i as int] == c);
            }
            return true;
        }
        i += 1;
    }
    false
}

/// The characters `v[from..to]`.
pub fn slice_chars(v: &[char], from: usize, to: usize) -> (r: Vec<char>)
    requires
        from <= to <= v@.len(),
    ensures
        r@ == v@.subrange(from as int, to as int),
{
    let mut r: Vec<char> = Vec::new();
    let mut i = from;
    while i < to
        invariant
            from <= i <= to,
            to <= v@.len(),
            r@ == v@.subrange(from as int, i as int),
        decreases to - i,
    {
        r.push(v[i]);
        proof {
            assert(v@.subrange(from as int, i + 1) == v@.subrange(from as int, i as int).push(
                v@[i as int],
            ));
        }
        i += 1;
    }
    r
}

// ---------------------------------------------------------------------------
// Decimal integers
// ---------------------------------------------------------------------------

/// An ASCII digit of the given radix (at most ten).
pub open spec fn is_digit_radix(c: char, radix: nat) -> bool {
    48 <= c as u32 && (c as u32) < 48 + radix
}

/// An ASCII decimal digit.
pub open spec fn is_digit(c: char) -> bool {
    is_digit_radix(c, 10)
}

/// Every character of `s` is a digit of the radix.
pub open spec fn all_digits_radix(s: Seq<char>, radix: nat) -> bool {
    forall|i: int| 0 <= i < s.len() ==> is_digit_radix(#[trigger] s[i], radix)
}

/// Every character of `s` is an ASCII decimal digit.
pub open spec fn all_digits(s: Seq<char>) -> bool {
    all_digits_radix(s, 10)
}

/// The value of a string of digits in the radix, most significant first.
pub open spec fn digits_value_radix(s: Seq<char>, radix: nat) -> nat
    decreases s.len(),
{
    if s.len() == 0 {
        0
    } else {
        digits_value_radix(s.drop_last(), radix) * radix + ((s.last() as u32) - 48) as nat
    }
}

/// The value of a string of decimal digits.
pub open spec fn digits_value(s: Seq<char>) -> nat {
    digits_value_radix(s, 10)
}

/// What `str::parse` gives for an integer type with range `[min, max]`:
/// an optional `+` (or `-` when `min < 0`), then at least one digit, and the
/// value must lie in the range.
pub open spec fn parse_int_spec(s: Seq<char>, min: int, max: int) -> Option<int> {
    parse_int_radix_spec(s, min, max, 10)
}

/// What `from_str_radix` gives for an integer type with range `[min, max]`.
pub open spec fn parse_int_radix_spec(s: Seq<char>, min: int, max: int, radix: nat) -> Option<int> {
    let neg = s.len() > 0 && s[0] == '-' && min < 0;
    let body = if s.len() > 0 && (s[0] == '+' || neg) {
        s.drop_first()
    } else {
        s
    };
    if body.len() > 0 && all_digits_radix(body, radix) {
        let v: int = if neg {
            -(digits_value_radix(body, radix) as int)
        } else {
            digits_value_radix(body, radix) as int
        };
        if min <= v <= max {
            Some(v)
        } else {
            None
        }
    } else {
        None
    }
}

proof fn lemma_digits_value_take(s: Seq<char>, i: int, radix: nat)
    requires
        0 <= i < s.len(),
    ensures
        digits_value_radix(s.take(i + 1), radix) == digits_value_radix(s.take(i), radix) * radix
            + ((s[i] as u32) - 48) as nat,
{
    assert(s.take(i + 1).drop_last() =~= s.take(i));
}

proof fn lemma_digits_value_mono(s: Seq<char>, i: int, j: int, radix: nat)
    requires
        0 <= i <= j <= s.len(),
        radix >= 1,
        all_digits_radix(s, radix),
    ensures
        digits_value_radix(s.take(i), radix) <= digits_value_radix(s.take(j), radix),
    decreases j - i,
{
    if i < j {
        lemma_digits_value_mono(s, i, j - 1, radix);
        lemma_digits_value_take(s, j - 1, radix);
        assert(is_digit_radix(s[j - 1], radix));
        let a = digits_value_radix(s.take(j - 1), radix);
        assert(a <= a * radix) by (nonlinear_arith)
            requires radix >= 1;
    }
}

/// Parses the digits `v[start..]` in `radix` as an unsigned value no larger
/// than `max`. `None` when a character is not a digit, when there are none,
/// or when the value exceeds `max`.
fn parse_digits(v: &[char], start: usize, max: u64, radix: u32) -> (r: Option<u64>)
    requires
        start <= v@.len(),
        2 <= radix <= 10,
    ensures
        ({
            let body = v@.skip(start as int);
            match r {
                Some(n) => body.len() > 0 && all_digits_radix(body, radix as nat)
                    && n == digits_value_radix(body, radix as nat) && n <= max,
                None => !(body.len() > 0 && all_digits_radix(body, radix as nat)
                    && digits_value_radix(body, radix as nat) <= max),
            }
        }),
{
    let ghost body = v@.skip(start as int);
    if start >= v.len() {
        return None;
    }
    let mut acc: u64 = 0;
    let mut i = start;
    while i < v.len()
        invariant
            start <= i <= v@.len(),
            body == v@.skip(start as int),
            2 <= radix <= 10,
            all_digits_radix(body.take(i - start), radix as nat),
            acc == digits_value_radix(body.take(i - start), radix as nat),
            acc <= max,
        decreases v.len() - i,
    {
        let c = v[i];
        proof {
            assert(body[i - start] == c);
        }
        let cu = c as u32;
        if !(48 <= cu && cu < 48 + radix) {
            proof {
                assert(!is_digit_radix(body[i - start], radix as nat));
            }
            return None;
        }
        let d = (cu - 48) as u64;
        let rd = radix as u64;
        proof {
            lemma_digits_value_take(body, i - start, radix as nat);
            assert(body.take(i - start + 1) =~= body.take(i - start).push(c));
        }
        if d > max || acc > (max - d) / rd {
            proof {
                assert(acc * rd + d > max) by (nonlinear_arith)
                    requires d > max || acc > ((max - d) as u64) / rd, acc >= 0, rd >= 2;
                // every extension of the prefix is at least as large
                if all_digits_radix(body, radix as nat) {
                    lemma_digits_value_mono(body, i - start + 1, body.len() as int, radix as nat);
                    assert(body.take(body.len() as int) =~= body);
                }
            }
            return None;
        }
        proof {
            assert(acc * rd + d <= max) by (nonlinear_arith)
                requires acc <= ((max - d) as u64) / rd, d <= max, rd >= 2;
        }
        acc = acc * rd + d;
        i += 1;
    }
    proof {
        assert(body.take(i - start) =~= body);
    }
    Some(acc)
}

/// `str::parse::<i64>`.
pub fn parse_i64(v: &[char]) -> (r: Option<i64>)
    ensures
        match r {
            Some(n) => parse_int_spec(v@, i64::MIN as int, i64::MAX as int) == Some(n as int),
            None => parse_int_spec(v@, i64::MIN as int, i64::MAX as int) is None,
        },
{
    if v.len() > 0 && v[0] == '-' {
        proof {
            assert(v@.drop_first() =~= v@.skip(1));
        }
        match parse_digits(v, 1, 0x8000_0000_0000_0000u64, 10) {
            Some(n) => {
                if n == 0x8000_0000_0000_0000u64 {
                    Some(i64::MIN)
                } else {
                    Some(-(n as i64))
                }
            },
            None => None,
        }
    } else if v.len() > 0 && v[0] == '+' {
        proof {
            assert(v@.drop_first() =~= v@.skip(1));
        }
        match parse_digits(v, 1, 0x7fff_ffff_ffff_ffffu64, 10) {
            Some(n) => Some(n as i64),
            None => None,
        }
    } else {
        proof {
            assert(v@ =~= v@.skip(0));
        }
        match parse_digits(v, 0, 0x7fff_ffff_ffff_ffffu64, 10) {
            Some(n) => Some(n as i64),
            None => None,
        }
    }
}

/// `from_str_radix` for an unsigned type whose largest value is `max`.
pub fn parse_unsigned_radix(v: &[char], max: u64, radix: u32) -> (r: Option<u64>)
    requires
        2 <= radix <= 10,
    ensures
        match r {
            Some(n) => parse_int_radix_spec(v@, 0, max as int, radix as nat) == Some(n as int),
            None => parse_int_radix_spec(v@, 0, max as int, radix as nat) is None,
        },
{
    if v.len() > 0 && v[0] == '+' {
        proof {
            assert(v@.drop_first() =~= v@.skip(1));
        }
        parse_digits(v, 1, max, radix)
    } else {
        proof {
            assert(v@ =~= v@.skip(0));
        }
        parse_digits(v, 0, max, radix)
    }
}

/// `str::parse` for an unsigned type whose largest value is `max`.
pub fn parse_unsigned(v: &[char], max: u64) -> (r: Option<u64>)
    ensures
        match r {
            Some(n) => parse_int_spec(v@, 0, max as int) == Some(n as int),
            None => parse_int_spec(v@, 0, max as int) is None,
        },
{
    parse_unsigned_radix(v, max, 10)
}

/// `str::parse::<usize>` (on a 64-bit target).
pub fn parse_usize(v: &[char]) -> (r: Option<usize>)
    ensures
        match r {
            Some(n) => parse_int_spec(v@, 0, usize::MAX as int) == Some(n as int),
            None => parse_int_spec(v@, 0, usize::MAX as int) is None,
        },
{
    match parse_unsigned(v, usize::MAX as u64) {
        Some(n) => Some(n as usize),
        None => None,
    }
}

/// `str::parse::<u32>`.
pub fn parse_u32(v: &[char]) -> (r: Option<u32>)
    ensures
        match r {
            Some(n) => parse_int_spec(v@, 0, u32::MAX as int) == Some(n as int),
            None => parse_int_spec(v@, 0, u32::MAX as int) is None,
        },
{
    match parse_unsigned(v, u32::MAX as u64) {
        Some(n) => Some(n as u32),
        None => None,
    }
}

/// `str::parse::<i32>`.
pub fn parse_i32(v: &[char]) -> (r: Option<i32>)
    ensures
        match r {
            Some(n) => parse_int_spec(v@, i32::MIN as int, i32::MAX as int) == Some(n as int),
            None => parse_int_spec(v@, i32::MIN as int, i32::MAX as int) is None,
        },
{
    match parse_i64(v) {
        Some(n) => if i32::MIN as i64 <= n && n <= i32::MAX as i64 {
            Some(n as i32)
        } else {
            None
        },
        None => None,
    }
}

/// Whether `s` holds the two characters `a` then `b` next to each other.
pub open spec fn contains_pair(s: Seq<char>, a: char, b: char) -> bool {
    exists|i: int| 0 <= i && i + 1 < s.len() && s[i] == a && #[trigger] s[i + 1] == b
}

/// Whether `v` holds `a` immediately followed by `b`.
pub fn has_pair(v: &[char], a: char, b: char) -> (r: bool)
    ensures
        r == contains_pair(v@, a, b),
{
    let mut i: usize = 0;
    while i < v.len() && i + 1 < v.len()
        invariant
            i <= v@.len(),
            forall|j: int| 0 <= j < i && j + 1 < v@.len() ==> !(v@[j] == a && #[trigger] v@[j + 1] == b),
        decreases v.len() - i,
    {
        if v[i] == a && v[i + 1] == b {
            return true;
        }
        i += 1;
    }
    proof {
        assert forall|j: int| 0 <= j && j + 1 < v@.len() && v@[j] == a implies #[trigger] v@[j + 1] != b by {
            assert(j < i || j + 1 >= v@.len());
        }
    }
    false
}

/// `str::to_lowercase`, a function of the string alone.
pub uninterp spec fn lowercase_of(s: Seq<char>) -> Seq<char>;

/// Every character of `s` is ASCII.
pub open spec fn all_ascii(s: Seq<char>) -> bool {
    forall|i: int| 0 <= i < s.len() ==> (#[trigger] s[i] as u32) < 128
}

/// The ASCII upper-case form of a character.
pub open spec fn ascii_upper(c: char) -> char {
    if 'a' <= c && c <= 'z' { ((c as u32) - 32) as char } else { c }
}

/// The ASCII lower-case form of a character.
pub open spec fn ascii_lower(c: char) -> char {
    if 'A' <= c && c <= 'Z' { ((c as u32) + 32) as char } else { c }
}

/// `str::to_lowercase`: the Unicode lower-case form of `s`; on ASCII text
/// Unicode's mapping is the ASCII one, character by character.
#[verifier::external_body]
pub(crate) fn to_lowercase(s: &str) -> (r: String)
    ensures
        r@ == lowercase_of(s@),
        all_ascii(s@) ==> r@ == s@.map_values(|c: char| ascii_lower(c)),
{
    s.to_lowercase()
}

/// `str::to_uppercase`, a function of the string alone.
pub uninterp spec fn uppercase_of(s: Seq<char>) -> Seq<char>;

/// `str::to_uppercase`: the Unicode upper-case form of `s`; on ASCII text
/// Unicode's mapping is the ASCII one, character by character.
#[verifier::external_body]
pub(crate) fn to_uppercase(s: &str) -> (r: String)
    ensures
        r@ == uppercase_of(s@),
        all_ascii(s@) ==> r@ == s@.map_values(|c: char| ascii_upper(c)),
{
    s.to_uppercase()
}

/// `a`, `b` and `c` one after the other.
pub fn join3(a: &str, b: &str, c: &str) -> (r: String)
    ensures
        r@ == a@ + b@ + c@,
{
    let mut s = String::from_str(a);
    s.append(b);
    s.append(c);
    s
}

/// The text `a`, then the characters `v`, then the text `b`.
pub fn wrap_chars(a: &str, v: &[char], b: &str) -> (r: String)
    ensures
        r@ == a@ + v@ + b@,
{
    let mut s = String::from_str(a);
    push_chars(&mut s, v);
    s.append(b);
    s
}

/// The characters of `lit` followed by those of `v`.
pub fn prefixed(lit: &str, v: &[char]) -> (r: Vec<char>)
    ensures
        r@ == lit@ + v@,
{
    let mut r = chars_of(lit);
    let ghost start = r@;
    let mut i: usize = 0;
    while i < v.len()
        invariant
            i <= v@.len(),
            start == lit@,
            r@ == start + v@.take(i as int),
        decreases v.len() - i,
    {
        r.push(v[i]);
        proof {
            assert(v@.take(i + 1) == v@.take(i as int).push(v@[i as int]));
        }
        i += 1;
    }
    proof {
        assert(v@.take(v@.len() as int) == v@);
    }
    r
}

/// The index of the first `c` in `v`, if any.
pub fn find_char(v: &[char], c: char) -> (r: Option<usize>)
    ensures
        match r {
            Some(i) => i < v@.len() && v@[i as int] == c && forall|j: int| 0 <= j < i ==> v@[j] != c,
            None => forall|j: int| 0 <= j < v@.len() ==> v@[j] != c,
        },
{
    let mut i: usize = 0;
    while i < v.len()
        invariant
            i <= v@.len(),
            forall|j: int| 0 <= j < i ==> v@[j] != c,
        decreases v.len() - i,
    {
        if v[i] == c {
            return Some(i);
        }
        i += 1;
    }
    None
}

/// The first index of `c` in `s`, if any.
pub open spec fn first_index_of(s: Seq<char>, c: char) -> Option<int> {
    if exists|i: int| 0 <= i < s.len() && s[i] == c {
        Some(choose|i: int| 0 <= i < s.len() && s[i] == c && forall|j: int| 0 <= j < i ==> s[j] != c)
    } else {
        None
    }
}

pub proof fn lemma_first_index_of(s: Seq<char>, c: char, i: int)
    requires
        0 <= i < s.len(),
        s[i] == c,
        forall|j: int| 0 <= j < i ==> s[j] != c,
    ensures
        first_index_of(s, c) == Some(i),
{
    let k = choose|k: int| 0 <= k < s.len() && s[k] == c && forall|j: int| 0 <= j < k ==> s[j] != c;
    assert(0 <= k < s.len() && s[k] == c && forall|j: int| 0 <= j < k ==> s[j] != c);
    if k < i {
        assert(s[k] != c);
    } else if k > i {
        assert(s[i] != c);
    }
}

/// The decimal digits of `n`, most significant first, without leading
/// zeros (`"0"` for zero).
pub open spec fn decimal(n: nat) -> Seq<char>
    decreases n,
{
    if n < 10 {
        seq![digit_char(n)]
    } else {
        decimal(n / 10).push(digit_char(n % 10))
    }
}

/// The ASCII digit of a value under ten.
pub open spec fn digit_char(d: nat) -> char {
    ((48 + d) as u32) as char
}

/// The ASCII digit of a value under ten.
pub(crate) fn digit_of(d: u64) -> (c: char)
    requires
        d < 10,
    ensures
        c == digit_char(d as nat),
{
    if d == 0 { '0' } else if d == 1 { '1' } else if d == 2 { '2' } else if d == 3 { '3' }
    else if d == 4 { '4' } else if d == 5 { '5' } else if d == 6 { '6' } else if d == 7 { '7' }
    else if d == 8 { '8' } else { '9' }
}

/// `n` in decimal, as `to_string` writes it.
pub fn decimal_string(n: u64) -> (r: String)
    ensures
        r@ == decimal(n as nat),
    decreases n,
{
    if n < 10 {
        let mut s = String::new();
        push_char(&mut s, digit_of(n));
        proof {
            assert(s@ =~= seq![digit_char(n as nat)]);
        }
        s
    } else {
        let mut s = decimal_string(n / 10);
        push_char(&mut s, digit_of(n % 10));
        s
    }
}

/// The last component of a path as `std::path::Path::file_name` finds it,
/// a function of the path's text alone.
pub uninterp spec fn file_name_of(path: Seq<char>) -> Option<Seq<char>>;

/// `std::path::Path::file_name`, its result read as text.
#[verifier::external_body]
pub(crate) fn path_file_name(path: &str) -> (r: Option<String>)
    ensures
        match r {
            Some(n) => file_name_of(path@) == Some(n@),
            None => file_name_of(path@) is None,
        },
{
    match std::path::Path::new(path).file_name() {
        Some(n) => Some(n.to_string_lossy().to_string()),
        None => None,
    }
}

/// The pieces of `s[begin..]` between the characters `c`, scanning from
/// `i` (as `str::split` makes them: one more piece than there are `c`).
pub open spec fn pieces_from(s: Seq<char>, begin: int, i: int, c: char) -> Seq<Seq<char>>
    decreases s.len() - i,
{
    if i >= s.len() {
        seq![s.subrange(begin, s.len() as int)]
    } else if s[i] == c {
        seq![s.subrange(begin, i)] + pieces_from(s, i + 1, i + 1, c)
    } else {
        pieces_from(s, begin, i + 1, c)
    }
}

/// `s` split at each `c`.
pub open spec fn split_on(s: Seq<char>, c: char) -> Seq<Seq<char>> {
    pieces_from(s, 0, 0, c)
}

/// Appends the pieces of `s` between the characters `c`.
pub fn push_pieces(out: &mut Vec<String>, s: &str, c: char)
    ensures
        crate::find::expression::strings_view(final(out)@) == crate::find::expression::strings_view(old(out)@) + split_on(s@, c),
{
    let v = chars_of(s);
    let ghost start = crate::find::expression::strings_view(out@);
    let mut begin: usize = 0;
    let mut i: usize = 0;
    while i < v.len()
        invariant
            begin <= i <= v.len(),
            v@ == s@,
            start + split_on(v@, c) == crate::find::expression::strings_view(out@) + pieces_from(v@, begin as int, i as int, c),
        decreases v.len() - i,
    {
        if v[i] == c {
            let piece = string_of(&slice_chars(&v, begin, i));
            let ghost before = crate::find::expression::strings_view(out@);
            out.push(piece);
            proof {
                assert(crate::find::expression::strings_view(out@) =~= before.push(piece@));
                assert(before + pieces_from(v@, begin as int, i as int, c)
                    =~= crate::find::expression::strings_view(out@) + pieces_from(v@, i + 1, i + 1, c));
            }
            begin = i + 1;
        }
        i += 1;
    }
    let piece = string_of(&slice_chars(&v, begin, v.len()));
    let ghost before = crate::find::expression::strings_view(out@);
    out.push(piece);
    proof {
        assert(crate::find::expression::strings_view(out@) =~= before.push(piece@));
        assert(before + pieces_from(v@, begin as int, i as int, c) =~= crate::find::expression::strings_view(out@));
    }
}

/// `t` occurs in `s`.
pub open spec fn seq_contains(s: Seq<char>, t: Seq<char>) -> bool {
    exists|k: int| 0 <= k && k + t.len() <= s.len() && #[trigger] s.subrange(k, k + t.len()) == t
}

/// Whether the text `lit` occurs in `v` (`str::contains`).
pub fn contains_text(v: &[char], lit: &str) -> (r: bool)
    ensures
        r == seq_contains(v@, lit@),
{
    let t = chars_of(lit);
    if t.len() > v.len() {
        return false;
    }
    if t.len() == 0 {
        proof {
            assert(v@.subrange(0, 0int + t@.len()) =~= t@);
        }
        return true;
    }
    let last = v.len() - t.len();
    let mut k: usize = 0;
    while k <= last
        invariant
            t@ == lit@,
            0 < t.len() <= v.len(),
            last == v.len() - t.len(),
            k <= last + 1,
            forall|j: int| 0 <= j < k ==> #[trigger] v@.subrange(j, j + t@.len()) != t@,
        decreases last + 1 - k,
    {
        let piece = slice_chars(v, k, k + t.len());
        if chars_eq(&piece, &t) {
            return true;
        }
        k += 1;
    }
    proof {
        assert forall|j: int| 0 <= j && j + t@.len() <= v@.len() implies #[trigger] v@.subrange(j, j + t@.len()) != t@ by {
            assert(j < k);
        }
    }
    false
}

} // verus!
