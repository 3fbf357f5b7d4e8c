//! How `ls` writes a name: escapes, `?` for control characters, quotes,
//! the type mark, the colour, and the permissions column.
use vstd::prelude::*;
use crate::text::{chars_of, push_char, push_chars, to_lowercase, lowercase_of, str_eq, string_of, slice_chars};
use crate::fold::is_control;

verus! {

fn is_control_char(c: char) -> (r: bool)
    ensures
        r == is_control(c),
{
    let u = c as u32;
    u <= 0x1F || (0x7F <= u && u <= 0x9F)
}

/// The octal digit of a value under eight.
pub open spec fn octal_digit(d: int) -> char {
    ((d + 48) as u32) as char
}

/// How `-b` writes one character: C escapes for line feed, tab, carriage
/// return, backslash and double quote, three octal digits for another
/// control character, the character itself otherwise.
pub open spec fn escape_char(c: char) -> Seq<char> {
    if c == '\n' {
        "\\n"@
    } else if c == '\t' {
        "\\t"@
    } else if c == '\r' {
        "\\r"@
    } else if c == '\\' {
        "\\\\"@
    } else if c == '"' {
        "\\\""@
    } else if (c as u32) <= 0x1F || (0x7F <= (c as u32) && (c as u32) <= 0x9F) {
        let u = (c as u32) as int;
        seq!['\\', octal_digit(u / 64), octal_digit((u / 8) % 8), octal_digit(u % 8)]
    } else {
        seq![c]
    }
}

/// The escaped form of the first `i` characters of `s`.
pub open spec fn escaped(s: Seq<char>, i: int) -> Seq<char>
    decreases i,
{
    if i <= 0 { Seq::empty() } else { escaped(s, i - 1) + escape_char(s[i - 1]) }
}

fn octal_digit_exec(d: u32) -> (c: char)
    requires
        d < 8,
    ensures
        c == octal_digit(d as int),
{
    if d == 0 { '0' } else if d == 1 { '1' } else if d == 2 { '2' } else if d == 3 { '3' }
    else if d == 4 { '4' } else if d == 5 { '5' } else if d == 6 { '6' } else { '7' }
}

/// `-b`: the name with its special characters escaped.
pub fn escape_name(name: &str) -> (r: String)
    ensures
        r@ == escaped(name@, name@.len() as int),
{
    proof {
        reveal_strlit("\\n");
        reveal_strlit("\\t");
        reveal_strlit("\\r");
        reveal_strlit("\\\\");
        reveal_strlit("\\\"");
    }
    let v = chars_of(name);
    let mut out = String::new();
    let mut i: usize = 0;
    while i < v.len()
        invariant
            i <= v.len(),
            v@ == name@,
            out@ == escaped(v@, i as int),
        decreases v.len() - i,
    {
        let c = v[i];
        let ghost before = out@;
        if c == '\n' {
            out.append("\\n");
        } else if c == '\t' {
            out.append("\\t");
        } else if c == '\r' {
            out.append("\\r");
        } else if c == '\\' {
            out.append("\\\\");
        } else if c == '"' {
            out.append("\\\"");
        } else if (c as u32) <= 0x1F || (0x7F <= (c as u32) && (c as u32) <= 0x9F) {
            let u = c as u32;
            push_char(&mut out, '\\');
            push_char(&mut out, octal_digit_exec(u / 64));
            push_char(&mut out, octal_digit_exec((u / 8) % 8));
            push_char(&mut out, octal_digit_exec(u % 8));
        } else {
            push_char(&mut out, c);
        }
        proof {
            assert(out@ =~= before + escape_char(c));
        }
        i += 1;
    }
    out
}

/// `-q`: the name with each control character shown as `?`.
pub open spec fn printable(s: Seq<char>) -> Seq<char> {
    s.map_values(|c: char| if is_control(c) { '?' } else { c })
}

/// `-q`: the name with each control character shown as `?`.
pub fn replace_non_printable(name: &str) -> (r: String)
    ensures
        r@ == printable(name@),
{
    let v = chars_of(name);
    let mut out = String::new();
    let mut i: usize = 0;
    while i < v.len()
        invariant
            i <= v.len(),
            v@ == name@,
            out@ == printable(v@.take(i as int)),
        decreases v.len() - i,
    {
        let c = v[i];
        push_char(&mut out, if is_control_char(c) { '?' } else { c });
        proof {
            assert(printable(v@.take(i + 1)) =~= printable(v@.take(i as int)).push(if is_control(c) { '?' } else { c }));
        }
        i += 1;
    }
    proof {
        assert(v@.take(v.len() as int) =~= v@);
    }
    out
}

/// The text after the last `.` of a name, or the whole name.
pub open spec fn extension(name: Seq<char>) -> Seq<char>
    decreases name.len(),
{
    if name.len() == 0 {
        name
    } else if name.last() == '.' {
        Seq::empty()
    } else {
        extension(name.drop_last()).push(name.last())
    }
}

/// Whether `name` has none of `.`.
pub open spec fn dotless(name: Seq<char>) -> bool {
    forall|i: int| 0 <= i < name.len() ==> name[i] != '.'
}

/// A name this system runs: its extension, case aside, is `exe`, `cmd`,
/// `bat`, `com`, `ps1` or `msi`.
pub open spec fn is_executable_spec(name: Seq<char>) -> bool {
    let e = lowercase_of(extension(name));
    e == "exe"@ || e == "cmd"@ || e == "bat"@ || e == "com"@ || e == "ps1"@ || e == "msi"@
}

proof fn lemma_extension(name: Seq<char>, k: int)
    requires
        0 <= k <= name.len(),
        forall|j: int| k <= j < name.len() ==> name[j] != '.',
        k == 0 || name[k - 1] == '.',
    ensures
        extension(name) == name.skip(k),
    decreases name.len(),
{
    if name.len() > k {
        lemma_extension(name.drop_last(), k);
        assert(name.drop_last().skip(k).push(name.last()) =~= name.skip(k));
    } else if k > 0 {
        assert(name.skip(k) =~= Seq::<char>::empty());
    } else {
        assert(name =~= Seq::<char>::empty());
    }
}

/// Whether a name is one this system runs.
pub fn is_executable_file(name: &str) -> (r: bool)
    ensures
        r == is_executable_spec(name@),
{
    let v = chars_of(name);
    let mut k = v.len();
    while k > 0 && v[k - 1] != '.'
        invariant
            k <= v.len(),
            forall|j: int| k <= j < v@.len() ==> v@[j] != '.',
        decreases k,
    {
        k -= 1;
    }
    proof {
        lemma_extension(v@, k as int);
    }
    let ext = slice_chars(&v, k, v.len());
    assert(ext@ =~= v@.skip(k as int));
    let es = string_of(&ext);
    let e = to_lowercase(es.as_str());
    let s = e.as_str();
    str_eq(s, "exe") || str_eq(s, "cmd") || str_eq(s, "bat") || str_eq(s, "com") || str_eq(s, "ps1") || str_eq(s, "msi")
}

/// The permissions column of a long listing: read always, write unless
/// read-only, run for directories and runnable names, the same three for
/// everyone with write only for the owner.
pub open spec fn permissions_spec(readonly: bool, is_dir: bool, name: Seq<char>) -> Seq<char> {
    let w = if readonly { '-' } else { 'w' };
    let x = if is_dir || is_executable_spec(name) { 'x' } else { '-' };
    seq!['r', w, x, 'r', '-', x, 'r', '-', x]
}

/// The permissions column of a long listing.
pub fn format_permissions(readonly: bool, is_dir: bool, name: &str) -> (r: String)
    ensures
        r@ == permissions_spec(readonly, is_dir, name@),
{
    let w = if readonly { '-' } else { 'w' };
    let x = if is_dir || is_executable_file(name) { 'x' } else { '-' };
    let v = vec!['r', w, x, 'r', '-', x, 'r', '-', x];
    let r = string_of(&v);
    proof {
        assert(v@ =~= seq!['r', w, x, 'r', '-', x, 'r', '-', x]);
    }
    r
}

/// What a name becomes before colour: escaped (`-b`) or with `?` for
/// control characters (`-q`), quoted (`-Q`), and with `/`, `@` or `*`
/// for a directory, a link or a runnable file (`-F`).
pub open spec fn shown_name_spec(name: Seq<char>, escape: bool, non_printable: bool, quote: bool, classify: bool,
    is_dir: bool, is_link: bool) -> Seq<char>
{
    let base = if escape { escaped(name, name.len() as int) } else if non_printable { printable(name) } else { name };
    let quoted = if quote { seq!['"'] + base + seq!['"'] } else { base };
    if classify {
        if is_dir {
            quoted.push('/')
        } else if is_link {
            quoted.push('@')
        } else if is_executable_spec(name) {
            quoted.push('*')
        } else {
            quoted
        }
    } else {
        quoted
    }
}

/// What a name becomes before colour.
pub fn shown_name(name: &str, escape: bool, non_printable: bool, quote: bool, classify: bool, is_dir: bool,
    is_link: bool) -> (r: String)
    ensures
        r@ == shown_name_spec(name@, escape, non_printable, quote, classify, is_dir, is_link),
{
    let base = if escape {
        escape_name(name)
    } else if non_printable {
        replace_non_printable(name)
    } else {
        String::from_str(name)
    };
    let mut s = if quote {
        let mut q = String::new();
        push_char(&mut q, '"');
        q.append(base.as_str());
        push_char(&mut q, '"');
        q
    } else {
        base
    };
    if classify {
        if is_dir {
            push_char(&mut s, '/');
        } else if is_link {
            push_char(&mut s, '@');
        } else if is_executable_file(name) {
            push_char(&mut s, '*');
        }
    }
    proof {
        if quote {
            assert(s@.take(0) =~= Seq::<char>::empty());
        }
    }
    s
}

/// The colour of a name: blue directories, cyan links, red system files,
/// grey hidden files, green runnable files, none for the rest.
pub open spec fn colorize_spec(shown: Seq<char>, name: Seq<char>, is_dir: bool, is_link: bool, is_system: bool,
    is_hidden: bool) -> Seq<char>
{
    if is_dir {
        "\x1b[34m"@ + shown + "\x1b[0m"@
    } else if is_link {
        "\x1b[36m"@ + shown + "\x1b[0m"@
    } else if is_system {
        "\x1b[31m"@ + shown + "\x1b[0m"@
    } else if is_hidden {
        "\x1b[90m"@ + shown + "\x1b[0m"@
    } else if is_executable_spec(name) {
        "\x1b[32m"@ + shown + "\x1b[0m"@
    } else {
        shown
    }
}

/// The coloured form of a shown name.
pub fn colorize_name(shown: &str, name: &str, is_dir: bool, is_link: bool, is_system: bool, is_hidden: bool) -> (r: String)
    ensures
        r@ == colorize_spec(shown@, name@, is_dir, is_link, is_system, is_hidden),
{
    if is_dir {
        crate::text::join3("\x1b[34m", shown, "\x1b[0m")
    } else if is_link {
        crate::text::join3("\x1b[36m", shown, "\x1b[0m")
    } else if is_system {
        crate::text::join3("\x1b[31m", shown, "\x1b[0m")
    } else if is_hidden {
        crate::text::join3("\x1b[90m", shown, "\x1b[0m")
    } else if is_executable_file(name) {
        crate::text::join3("\x1b[32m", shown, "\x1b[0m")
    } else {
        String::from_str(shown)
    }
}

/// The size column with `--block-size=B`: the number of blocks, rounded up.
pub open spec fn blocks_spec(size: int, block: int) -> int {
    (size + (block - 1)) / block
}

/// The size column with `--block-size=B`.
pub fn size_in_blocks(size: u64, block: u64) -> (r: u64)
    requires
        block > 0,
        size + block - 1 <= u64::MAX,
    ensures
        r == blocks_spec(size as int, block as int),
{
    (size + (block - 1)) / block
}


/// `-b` writes line feed, tab, carriage return, backslash and double quote
/// as `\n`, `\t`, `\r`, `\\` and `\"`, any other control character as a
/// backslash and the three octal digits of its code, and leaves every
/// other character alone.
pub proof fn lemma_escape_char(c: char)
    ensures
        escape_char('\n') == seq!['\\', 'n'],
        escape_char('\t') == seq!['\\', 't'],
        escape_char('\r') == seq!['\\', 'r'],
        escape_char('\\') == seq!['\\', '\\'],
        escape_char('"') == seq!['\\', '"'],
        ((c as u32) <= 0x1F || (0x7F <= (c as u32) && (c as u32) <= 0x9F)) && c != '\n' && c != '\t' && c != '\r' ==> ({
            let e = escape_char(c);
            &&& e.len() == 4 && e[0] == '\\'
            &&& '0' <= e[1] <= '7' && '0' <= e[2] <= '7' && '0' <= e[3] <= '7'
            &&& (e[1] as int - 48) * 64 + (e[2] as int - 48) * 8 + (e[3] as int - 48) == c as u32
        }),
        !((c as u32) <= 0x1F || (0x7F <= (c as u32) && (c as u32) <= 0x9F)) && c != '\\' && c != '"' ==> escape_char(c) == seq![c],
{
    reveal_strlit("\\n");
    reveal_strlit("\\t");
    reveal_strlit("\\r");
    reveal_strlit("\\\\");
    reveal_strlit("\\\"");
    assert("\\n"@ =~= seq!['\\', 'n']);
    assert("\\t"@ =~= seq!['\\', 't']);
    assert("\\r"@ =~= seq!['\\', 'r']);
    assert("\\\\"@ =~= seq!['\\', '\\']);
    assert("\\\""@ =~= seq!['\\', '"']);
    let u = (c as u32) as int;
    if u <= 0x9F {
        assert(0 <= u / 64 < 8 && 0 <= (u / 8) % 8 < 8 && 0 <= u % 8 < 8 && (u / 64) * 64 + ((u / 8) % 8) * 8 + u % 8 == u) by (nonlinear_arith)
            requires
                0 <= u <= 0x9F,
        ;
    }
}

/// `--block-size`: the size in whole blocks, rounded up.
pub proof fn lemma_blocks_round_up(size: int, block: int)
    requires
        0 <= size,
        0 < block,
    ensures
        blocks_spec(size, block) * block >= size,
        size > 0 ==> (blocks_spec(size, block) - 1) * block < size,
        size == 0 ==> blocks_spec(size, block) == 0,
{
    let q = blocks_spec(size, block);
    assert(q * block <= size + block - 1 && size + block - 1 < (q + 1) * block && q >= 0) by (nonlinear_arith)
        requires
            block > 0,
            size >= 0,
            q == (size + (block - 1)) / block,
    ;
    assert(q * block >= size) by (nonlinear_arith)
        requires
            size + block - 1 < (q + 1) * block,
    ;
    assert(size > 0 ==> (q - 1) * block < size) by (nonlinear_arith)
        requires
            q * block <= size + block - 1,
    ;
    if size == 0 {
        assert(q == 0) by (nonlinear_arith)
            requires
                q * block <= block - 1,
                q >= 0,
                block > 0,
        ;
    }
}

} // verus!
