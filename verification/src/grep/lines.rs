//! The input of `grep` as lines, and the guesses it makes about raw bytes.
use vstd::prelude::*;
use crate::text::{chars_of, string_of, slice_chars};

verus! {

/// The number of bytes that UTF-8 spends on `c`.
pub open spec fn utf8_char_len(c: char) -> nat {
    if (c as u32) < 0x80 {
        1
    } else if (c as u32) < 0x800 {
        2
    } else if (c as u32) < 0x10000 {
        3
    } else {
        4
    }
}

/// The number of bytes of `s` in UTF-8.
pub open spec fn utf8_len(s: Seq<char>) -> nat
    decreases s.len(),
{
    if s.len() == 0 {
        0
    } else {
        utf8_len(s.drop_last()) + utf8_char_len(s.last())
    }
}

/// A prefix takes no more bytes than the whole.
pub proof fn lemma_utf8_len_take(s: Seq<char>, i: int)
    requires
        0 <= i <= s.len(),
    ensures
        utf8_len(s.take(i)) <= utf8_len(s),
    decreases s.len() - i,
{
    if i < s.len() {
        lemma_utf8_len_take(s, i + 1);
        assert(s.take(i + 1).drop_last() =~= s.take(i));
    } else {
        assert(s.take(i) =~= s);
    }
}

/// The pieces that `str::split_inclusive(sep)` makes of `s[begin..]`,
/// scanning from `i`, the current piece having begun at `begin`: each
/// piece with its start, and each but maybe the last ending with `sep`.
pub open spec fn chunks_from(s: Seq<char>, begin: int, i: int, sep: char) -> Seq<(int, Seq<char>)>
    decreases s.len() - i,
{
    if i >= s.len() {
        if begin < s.len() {
            seq![(begin, s.subrange(begin, s.len() as int))]
        } else {
            Seq::empty()
        }
    } else if s[i] == sep {
        seq![(begin, s.subrange(begin, i + 1))] + chunks_from(s, i + 1, i + 1, sep)
    } else {
        chunks_from(s, begin, i + 1, sep)
    }
}

/// The pieces of `s` split after each `sep`, each with its start.
pub open spec fn chunks_of(s: Seq<char>, sep: char) -> Seq<(int, Seq<char>)> {
    chunks_from(s, 0, 0, sep)
}

/// A piece without its final `sep` and, outside NUL-separated data, without
/// a `\r` before it.
pub open spec fn line_of(chunk: Seq<char>, sep: char, null_data: bool) -> Seq<char> {
    let a = if chunk.len() > 0 && chunk.last() == sep { chunk.drop_last() } else { chunk };
    if !null_data && a.len() > 0 && a.last() == '\r' {
        a.drop_last()
    } else {
        a
    }
}

/// The separator of records: NUL with `-z`, else newline.
pub open spec fn separator(null_data: bool) -> char {
    if null_data { '\0' } else { '\n' }
}

/// The UTF-8 length of a character.
fn char_utf8_len(c: char) -> (r: usize)
    ensures
        r == utf8_char_len(c),
{
    let u = c as u32;
    if u < 0x80 {
        1
    } else if u < 0x800 {
        2
    } else if u < 0x10000 {
        3
    } else {
        4
    }
}

/// `s[begin..end]` as a line: without a final `\r` unless `null_data`.
fn make_line(s: &[char], begin: usize, end: usize, null_data: bool) -> (r: String)
    requires
        begin <= end <= s.len(),
    ensures
        r@ == (if !null_data && end > begin && s@[end - 1] == '\r' {
            s@.subrange(begin as int, end - 1)
        } else {
            s@.subrange(begin as int, end as int)
        }),
{
    let stop = if !null_data && end > begin && s[end - 1] == '\r' { end - 1 } else { end };
    string_of(&slice_chars(s, begin, stop))
}

/// Splits text into lines after each separator (NUL when `null_data`, else
/// newline, a `\r` before it being dropped too), with the byte offset in
/// UTF-8 at which each line starts.
pub fn split_lines(content: &str, null_data: bool) -> (r: (Vec<String>, Vec<usize>))
    requires
        utf8_len(content@) <= usize::MAX,
    ensures
        r.0.len() == chunks_of(content@, separator(null_data)).len(),
        r.1.len() == r.0.len(),
        forall|k: int| 0 <= k < r.0.len() ==> {
            let (b, chunk) = #[trigger] chunks_of(content@, separator(null_data))[k];
            &&& r.0@[k]@ == line_of(chunk, separator(null_data), null_data)
            &&& r.1@[k] == utf8_len(content@.take(b))
        },
{
    let s = chars_of(content);
    let sep = if null_data { '\0' } else { '\n' };
    let ghost full = chunks_of(s@, sep);
    let ghost mut done: Seq<(int, Seq<char>)> = Seq::empty();
    let mut lines: Vec<String> = Vec::new();
    let mut offsets: Vec<usize> = Vec::new();
    let mut begin: usize = 0;
    let mut begin_pos: usize = 0;
    let mut pos: usize = 0;
    let mut i: usize = 0;
    proof {
        assert(s@.take(0) =~= Seq::<char>::empty());
        assert(done + chunks_from(s@, 0, 0, sep) =~= full);
    }
    while i < s.len()
        invariant
            begin <= i <= s.len(),
            s@ == content@,
            sep == separator(null_data),
            utf8_len(s@) <= usize::MAX,
            pos == utf8_len(s@.take(i as int)),
            begin_pos == utf8_len(s@.take(begin as int)),
            lines.len() == offsets.len(),
            done.len() == lines.len(),
            forall|j: int| begin <= j < i ==> s@[j] != sep,
            full == chunks_of(s@, sep),
            full == done + chunks_from(s@, begin as int, i as int, sep),
            forall|k: int| 0 <= k < lines.len() ==> {
                let (b, chunk) = #[trigger] done[k];
                &&& lines@[k]@ == line_of(chunk, sep, null_data)
                &&& offsets@[k] == utf8_len(s@.take(b))
            },
        decreases s.len() - i,
    {
        let c = s[i];
        proof {
            lemma_utf8_len_take(s@, i + 1);
            assert(s@.take(i + 1).drop_last() =~= s@.take(i as int));
        }
        pos = pos + char_utf8_len(c);
        if c == sep {
            let line = make_line(&s, begin, i, null_data);
            proof {
                let chunk = s@.subrange(begin as int, i + 1);
                assert(chunk.drop_last() =~= s@.subrange(begin as int, i as int));
                if !null_data && i > begin && s@[i - 1] == '\r' {
                    assert(chunk.drop_last().drop_last() =~= s@.subrange(begin as int, i - 1));
                }
                assert(line@ == line_of(chunk, sep, null_data));
                assert(chunks_from(s@, begin as int, i as int, sep)
                    == seq![(begin as int, chunk)] + chunks_from(s@, i + 1, i + 1, sep));
                done = done.push((begin as int, chunk));
                assert(full =~= done + chunks_from(s@, i + 1, i + 1, sep));
            }
            lines.push(line);
            offsets.push(begin_pos);
            begin = i + 1;
            begin_pos = pos;
        } else {
            proof {
                assert(chunks_from(s@, begin as int, i as int, sep) == chunks_from(s@, begin as int, i + 1, sep));
            }
        }
        i += 1;
    }
    if begin < s.len() {
        let line = make_line(&s, begin, s.len(), null_data);
        proof {
            let chunk = s@.subrange(begin as int, s.len() as int);
            assert(chunk.last() == s@[s.len() - 1]);
            assert(chunk.drop_last() =~= s@.subrange(begin as int, s.len() - 1));
            assert(line@ == line_of(chunk, sep, null_data));
            done = done.push((begin as int, chunk));
            assert(full =~= done);
        }
        lines.push(line);
        offsets.push(begin_pos);
    } else {
        proof {
            assert(full =~= done);
        }
    }
    (lines, offsets)
}

/// Whether the first 8192 bytes (or all, when fewer) hold a NUL.
pub open spec fn looks_binary(bytes: Seq<u8>) -> bool {
    exists|i: int| 0 <= i < bytes.len() && i < 8192 && bytes[i] == 0
}

/// Whether input looks binary: a NUL among its first 8192 bytes.
pub fn is_binary(bytes: &[u8]) -> (r: bool)
    ensures
        r == looks_binary(bytes@),
{
    let check_len = if bytes.len() < 8192 { bytes.len() } else { 8192 };
    let mut i: usize = 0;
    while i < check_len
        invariant
            i <= check_len,
            check_len <= bytes.len(),
            check_len == (if bytes.len() < 8192 { bytes.len() } else { 8192 }),
            forall|j: int| 0 <= j < i ==> bytes@[j] != 0,
        decreases check_len - i,
    {
        if bytes[i] == 0 {
            return true;
        }
        i += 1;
    }
    false
}

/// The guess of Shift_JIS from `bytes[i..]`: lead and trail pairs and
/// half-width kana count for it, other bytes above ASCII against it.
pub open spec fn sjis_score_from(b: Seq<u8>, i: int) -> int
    decreases b.len() - i,
{
    if i >= b.len() || i < 0 {
        0
    } else {
        let x = b[i];
        if x <= 0x7F {
            sjis_score_from(b, i + 1)
        } else if (0x81 <= x <= 0x9F) || (0xE0 <= x <= 0xFC) {
            if i + 1 < b.len() {
                let y = b[i + 1];
                if (0x40 <= y <= 0x7E) || (0x80 <= y <= 0xFC) {
                    1 + sjis_score_from(b, i + 2)
                } else {
                    -1 + sjis_score_from(b, i + 1)
                }
            } else {
                sjis_score_from(b, i + 1)
            }
        } else if 0xA1 <= x <= 0xDF {
            1 + sjis_score_from(b, i + 1)
        } else {
            -1 + sjis_score_from(b, i + 1)
        }
    }
}

/// The guess of EUC-JP from `bytes[i..]`: two-byte characters and
/// half-width kana count for it, other bytes above ASCII against it.
pub open spec fn eucjp_score_from(b: Seq<u8>, i: int) -> int
    decreases b.len() - i,
{
    if i >= b.len() || i < 0 {
        0
    } else {
        let x = b[i];
        if x <= 0x7F {
            eucjp_score_from(b, i + 1)
        } else if 0xA1 <= x <= 0xFE {
            if i + 1 < b.len() && 0xA1 <= b[i + 1] <= 0xFE {
                1 + eucjp_score_from(b, i + 2)
            } else {
                -1 + eucjp_score_from(b, i + 1)
            }
        } else if x == 0x8E {
            if i + 1 < b.len() && 0xA1 <= b[i + 1] <= 0xDF {
                1 + eucjp_score_from(b, i + 2)
            } else {
                -1 + eucjp_score_from(b, i + 1)
            }
        } else {
            -1 + eucjp_score_from(b, i + 1)
        }
    }
}

/// A score moves by one per byte at most.
proof fn lemma_sjis_bound(b: Seq<u8>, i: int)
    requires
        0 <= i <= b.len(),
    ensures
        -(b.len() - i) <= sjis_score_from(b, i) <= b.len() - i,
    decreases b.len() - i,
{
    if i < b.len() {
        lemma_sjis_bound(b, i + 1);
        if i + 2 <= b.len() {
            lemma_sjis_bound(b, i + 2);
        }
    }
}

proof fn lemma_eucjp_bound(b: Seq<u8>, i: int)
    requires
        0 <= i <= b.len(),
    ensures
        -(b.len() - i) <= eucjp_score_from(b, i) <= b.len() - i,
    decreases b.len() - i,
{
    if i < b.len() {
        lemma_eucjp_bound(b, i + 1);
        if i + 2 <= b.len() {
            lemma_eucjp_bound(b, i + 2);
        }
    }
}

/// The Shift_JIS score of the bytes.
pub fn calc_sjis_score(bytes: &[u8]) -> (r: i32)
    requires
        bytes.len() <= i32::MAX,
    ensures
        r == sjis_score_from(bytes@, 0),
{
    let mut score: i32 = 0;
    let mut i: usize = 0;
    proof {
        lemma_sjis_bound(bytes@, 0);
    }
    while i < bytes.len()
        invariant
            i <= bytes.len() + 1,
            bytes.len() <= i32::MAX,
            score + sjis_score_from(bytes@, i as int) == sjis_score_from(bytes@, 0),
            -(i as int) <= score <= i,
        decreases bytes.len() + 1 - i,
    {
        proof {
            lemma_sjis_bound(bytes@, i as int);
        }
        let b = bytes[i];
        if b <= 0x7F {
            i += 1;
        } else if (0x81 <= b && b <= 0x9F) || (0xE0 <= b && b <= 0xFC) {
            if i + 1 < bytes.len() {
                let b2 = bytes[i + 1];
                if (0x40 <= b2 && b2 <= 0x7E) || (0x80 <= b2 && b2 <= 0xFC) {
                    score += 1;
                    i += 2;
                } else {
                    score -= 1;
                    i += 1;
                }
            } else {
                i += 1;
            }
        } else if 0xA1 <= b && b <= 0xDF {
            score += 1;
            i += 1;
        } else {
            score -= 1;
            i += 1;
        }
    }
    score
}

/// The EUC-JP score of the bytes.
pub fn calc_eucjp_score(bytes: &[u8]) -> (r: i32)
    requires
        bytes.len() <= i32::MAX,
    ensures
        r == eucjp_score_from(bytes@, 0),
{
    let mut score: i32 = 0;
    let mut i: usize = 0;
    while i < bytes.len()
        invariant
            i <= bytes.len() + 1,
            bytes.len() <= i32::MAX,
            score + eucjp_score_from(bytes@, i as int) == eucjp_score_from(bytes@, 0),
            -(i as int) <= score <= i,
        decreases bytes.len() + 1 - i,
    {
        let b = bytes[i];
        if b <= 0x7F {
            i += 1;
        } else if 0xA1 <= b && b <= 0xFE {
            if i + 1 < bytes.len() && 0xA1 <= bytes[i + 1] && bytes[i + 1] <= 0xFE {
                score += 1;
                i += 2;
            } else {
                score -= 1;
                i += 1;
            }
        } else if b == 0x8E {
            if i + 1 < bytes.len() && 0xA1 <= bytes[i + 1] && bytes[i + 1] <= 0xDF {
                score += 1;
                i += 2;
            } else {
                score -= 1;
                i += 1;
            }
        } else {
            score -= 1;
            i += 1;
        }
    }
    score
}

/// The encodings that input is read in.
#[derive(Debug, Clone, Copy, PartialEq, Eq, Structural)]
pub enum TextEncoding {
    Utf8,
    ShiftJis,
    EucJp,
    Utf16Le,
    Iso2022Jp,
}

/// `std::str::from_utf8(bytes).is_ok()`: whether the bytes are UTF-8.
#[verifier::external_body]
pub(crate) fn is_valid_utf8(bytes: &[u8]) -> (r: bool)
    ensures
        r == vstd::utf8::valid_utf8(bytes@),
{
    std::str::from_utf8(bytes).is_ok()
}

/// The text `encoding_rs` decodes from the bytes in the encoding, with its
/// sniffing of a byte order mark and malformed sequences replaced.
pub uninterp spec fn decoded_of(enc: TextEncoding, bytes: Seq<u8>) -> Seq<char>;

/// `encoding_rs::Encoding::decode` in the encoding.
#[verifier::external_body]
pub(crate) fn decode_in(enc: TextEncoding, bytes: &[u8]) -> (r: String)
    ensures
        r@ == decoded_of(enc, bytes@),
{
    let encoding = match enc {
        TextEncoding::Utf8 => encoding_rs::UTF_8,
        TextEncoding::ShiftJis => encoding_rs::SHIFT_JIS,
        TextEncoding::EucJp => encoding_rs::EUC_JP,
        TextEncoding::Utf16Le => encoding_rs::UTF_16LE,
        TextEncoding::Iso2022Jp => encoding_rs::ISO_2022_JP,
    };
    let (decoded, _, _) = encoding.decode(bytes);
    decoded.into_owned()
}

/// The encoding of input: UTF-8 when it starts with the UTF-8 byte order
/// mark or is valid UTF-8, else the better guess of Shift_JIS and EUC-JP,
/// Shift_JIS on a tie.
pub open spec fn detected_encoding(b: Seq<u8>) -> TextEncoding {
    if b.len() >= 3 && b[0] == 0xEF && b[1] == 0xBB && b[2] == 0xBF {
        TextEncoding::Utf8
    } else if vstd::utf8::valid_utf8(b) {
        TextEncoding::Utf8
    } else if eucjp_score_from(b, 0) > sjis_score_from(b, 0) {
        TextEncoding::EucJp
    } else {
        TextEncoding::ShiftJis
    }
}

/// The encoding of input.
pub fn detect_encoding(bytes: &[u8]) -> (r: TextEncoding)
    requires
        bytes.len() <= i32::MAX,
    ensures
        r == detected_encoding(bytes@),
{
    if bytes.len() >= 3 && bytes[0] == 0xEF && bytes[1] == 0xBB && bytes[2] == 0xBF {
        return TextEncoding::Utf8;
    }
    if is_valid_utf8(bytes) {
        return TextEncoding::Utf8;
    }
    let sjis = calc_sjis_score(bytes);
    let eucjp = calc_eucjp_score(bytes);
    if sjis > eucjp {
        TextEncoding::ShiftJis
    } else if eucjp > sjis {
        TextEncoding::EucJp
    } else {
        TextEncoding::ShiftJis
    }
}

/// Input as text, in the encoding detected.
pub fn decode_to_utf8(bytes: &[u8]) -> (r: String)
    requires
        bytes.len() <= i32::MAX,
    ensures
        r@ == decoded_of(detected_encoding(bytes@), bytes@),
{
    let enc = detect_encoding(bytes);
    decode_in(enc, bytes)
}

} // verus!
