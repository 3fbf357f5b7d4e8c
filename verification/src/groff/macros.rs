//! What the man macros make of their arguments: the fonts of `.B`, `.BR`
//! and their kin, the pieces of alternating-font arguments and how their
//! words join, the link of `.UR`/`.UE`, the bracketed option of `.OP`,
//! and where the tag of `.TP`/`.IP` goes.
use vstd::prelude::*;
use crate::groff::render::{Word, WordView, words_view, blank_end};
use crate::groff::special::Device;
use crate::groff::{visible_width, width_from, lemma_width_bound};
use crate::text::{chars_of, string_of, slice_chars, str_eq};

verus! {

/// The two fonts of an alternating-font macro, first for the odd
/// arguments and then for the even ones.
pub open spec fn alt_fonts_spec(name: Seq<char>) -> Option<(char, char)> {
    if name == "BR"@ {
        Some(('B', 'R'))
    } else if name == "RB"@ {
        Some(('R', 'B'))
    } else if name == "IR"@ {
        Some(('I', 'R'))
    } else if name == "RI"@ {
        Some(('R', 'I'))
    } else if name == "BI"@ {
        Some(('B', 'I'))
    } else if name == "IB"@ {
        Some(('I', 'B'))
    } else {
        None
    }
}

/// The fonts of an alternating-font macro.
pub fn alt_fonts(name: &str) -> (r: Option<(char, char)>)
    ensures
        r == alt_fonts_spec(name@),
{
    if str_eq(name, "BR") {
        Some(('B', 'R'))
    } else if str_eq(name, "RB") {
        Some(('R', 'B'))
    } else if str_eq(name, "IR") {
        Some(('I', 'R'))
    } else if str_eq(name, "RI") {
        Some(('R', 'I'))
    } else if str_eq(name, "BI") {
        Some(('B', 'I'))
    } else if str_eq(name, "IB") {
        Some(('I', 'B'))
    } else {
        None
    }
}

/// The font of `.B` and `.SB` (bold), `.I` (italic), else roman.
pub open spec fn macro_font_spec(name: Seq<char>) -> char {
    if name == "B"@ || name == "SB"@ {
        'B'
    } else if name == "I"@ {
        'I'
    } else {
        'R'
    }
}

/// The font of a one-font macro.
pub fn macro_font(name: &str) -> (r: char)
    ensures
        r == macro_font_spec(name@),
{
    if str_eq(name, "B") || str_eq(name, "SB") {
        'B'
    } else if str_eq(name, "I") {
        'I'
    } else {
        'R'
    }
}

/// Where the text of `b[..e]` ends once the blanks at its end are taken
/// off, a blank after a backslash staying.
pub open spec fn trail_cut(b: Seq<char>, e: int) -> int
    decreases e,
{
    if e > 0 && e <= b.len() && b[e - 1] == ' ' && !(e >= 2 && b[e - 2] == '\\') {
        trail_cut(b, e - 1)
    } else {
        e
    }
}

/// The parts of an argument of an alternating-font macro: whether it
/// starts with a blank, its text without the blanks around it, and
/// whether blanks ended it.
pub open spec fn alt_piece_spec(a: Seq<char>) -> (bool, Seq<char>, bool) {
    let st = blank_end(a, 0);
    let b = a.skip(st);
    let e = trail_cut(b, b.len() as int);
    (a.len() > 0 && a[0] == ' ', b.take(e), e < b.len())
}

/// The parts of an argument of an alternating-font macro.
pub fn alt_piece(a: &str) -> (r: (bool, String, bool))
    ensures
        r.0 == alt_piece_spec(a@).0,
        r.1@ == alt_piece_spec(a@).1,
        r.2 == alt_piece_spec(a@).2,
{
    let v = chars_of(a);
    let mut st: usize = 0;
    while st < v.len() && v[st] == ' '
        invariant
            st <= v@.len(),
            blank_end(v@, st as int) == blank_end(v@, 0),
        decreases v.len() - st,
    {
        st += 1;
    }
    let b = slice_chars(&v, st, v.len());
    proof {
        assert(b@ =~= v@.skip(st as int));
    }
    let mut e = b.len();
    while e > 0 && b[e - 1] == ' ' && !(e >= 2 && b[e - 2] == '\\')
        invariant
            e <= b@.len(),
            trail_cut(b@, e as int) == trail_cut(b@, b@.len() as int),
        decreases e,
    {
        e -= 1;
    }
    let lead = v.len() > 0 && v[0] == ' ';
    (lead, string_of(&slice_chars(&b, 0, e)), e < b.len())
}

/// A word as it is set after the first word of an alternating-font
/// argument: one column before it, and no sentence end.
pub open spec fn spaced(w: WordView) -> WordView {
    WordView { gap: 1, sentence_end: false, ..w }
}

/// The words of an alternating-font macro once the words `ws` of one more
/// argument join them: when the argument attaches to what came before,
/// its first word is appended to the last one; the others follow.
pub open spec fn join_spec(res: Seq<WordView>, ws: Seq<WordView>, attach: bool) -> Seq<WordView> {
    if ws.len() == 0 {
        res
    } else if attach && res.len() > 0 {
        let last = res.last();
        let merged = WordView { text: last.text + ws[0].text, width: (last.width + ws[0].width) as usize, ..last };
        res.drop_last().push(merged) + ws.skip(1).map_values(|w: WordView| spaced(w))
    } else {
        res + ws.map_values(|w: WordView| spaced(w))
    }
}

/// Adds the words of one argument of an alternating-font macro.
pub fn join_alternating(result: &mut Vec<Word>, ws: &[Word], attach: bool)
    requires
        attach && old(result)@.len() > 0 && ws@.len() > 0 ==> old(result)@.last().width + ws@[0].width
            <= usize::MAX,
    ensures
        words_view(final(result)@) == join_spec(words_view(old(result)@), words_view(ws@), attach),
{
    let ghost r0 = words_view(result@);
    let ghost wv = words_view(ws@);
    if ws.len() == 0 {
        return;
    }
    let mut k: usize = 0;
    if attach && result.len() > 0 {
        let last = result.pop().unwrap();
        let mut text = last.text;
        text.append(ws[0].text.as_str());
        let merged = Word { text, width: last.width + ws[0].width, ..last };
        result.push(merged);
        k = 1;
        proof {
            assert(words_view(result@) =~= r0.drop_last().push(merged@));
        }
    }
    let ghost start = words_view(result@);
    let ghost first: int = k as int;
    while k < ws.len()
        invariant
            first <= k <= ws@.len(),
            first == 0 || first == 1,
            wv == words_view(ws@),
            words_view(result@) == start + wv.subrange(first, k as int).map_values(|w: WordView| spaced(w)),
        decreases ws.len() - k,
    {
        let w = Word {
            text: ws[k].text.clone(),
            width: ws[k].width,
            gap: 1,
            sentence_end: false,
            adjustable: ws[k].adjustable,
        };
        let ghost before = words_view(result@);
        result.push(w);
        proof {
            assert(words_view(result@) =~= before.push(w@));
            assert(wv.subrange(first, k + 1).map_values(|w: WordView| spaced(w)) =~= wv.subrange(
                first,
                k as int,
            ).map_values(|w: WordView| spaced(w)).push(spaced(wv[k as int])));
        }
        k += 1;
    }
    proof {
        if first == 1 {
            assert(wv.subrange(1, wv.len() as int) =~= wv.skip(1));
        } else {
            assert(wv.subrange(0, wv.len() as int) =~= wv);
        }
        assert(words_view(result@) =~= join_spec(r0, wv, attach));
    }
}

/// The brackets around a link on a device.
pub open spec fn link_brackets(dev: Device) -> (Seq<char>, Seq<char>) {
    if dev == Device::Utf8 {
        ("\u{27E8}"@, "\u{27E9}"@)
    } else {
        ("<"@, ">"@)
    }
}

/// The word `.UE` sets for a link: the address in brackets, then the
/// argument of `.UE` (punctuation) without a gap.
pub open spec fn link_word_spec(url: Seq<char>, trailing: Option<Seq<char>>, dev: Device) -> WordView {
    let (lb, rb) = link_brackets(dev);
    let core = lb + url + rb;
    let text = match trailing {
        Some(t) => core + t,
        None => core,
    };
    let width = match trailing {
        Some(t) => width_from(core, 0, false) + width_from(t, 0, false),
        None => width_from(core, 0, false),
    };
    WordView { text, width: width as usize, gap: 1, sentence_end: false, adjustable: true }
}

/// The word `.UE` sets for a link.
pub fn link_word(url: &str, trailing: Option<&str>, dev: Device) -> (r: Word)
    requires
        2 * (url@.len() + 2) <= usize::MAX / 2,
        trailing is Some ==> 2 * trailing->Some_0@.len() <= usize::MAX / 2,
    ensures
        r@ == link_word_spec(url@, match trailing {
            Some(t) => Some(t@),
            None => None,
        }, dev),
{
    let (lb, rb) = if dev == Device::Utf8 {
        ("\u{27E8}", "\u{27E9}")
    } else {
        ("<", ">")
    };
    proof {
        reveal_strlit("\u{27E8}");
        reveal_strlit("\u{27E9}");
        reveal_strlit("<");
        reveal_strlit(">");
    }
    let mut text = String::from_str(lb);
    text.append(url);
    text.append(rb);
    let ghost core = text@;
    proof {
        lemma_width_bound(core, 0, false);
    }
    let mut width = visible_width(text.as_str());
    match trailing {
        Some(t) => {
            proof {
                lemma_width_bound(t@, 0, false);
            }
            let tw = visible_width(t);
            text.append(t);
            width = width + tw;
        },
        None => {},
    }
    Word { text, width, gap: 1, sentence_end: false, adjustable: true }
}

/// The text and columns of words set one after another with no gaps.
pub open spec fn run_text(ws: Seq<WordView>) -> Seq<char>
    decreases ws.len(),
{
    if ws.len() == 0 {
        Seq::empty()
    } else {
        run_text(ws.drop_last()) + ws.last().text
    }
}

/// The columns of words set one after another with no gaps.
pub open spec fn run_width(ws: Seq<WordView>) -> int
    decreases ws.len(),
{
    if ws.len() == 0 {
        0
    } else {
        run_width(ws.drop_last()) + ws.last().width
    }
}

/// The word `.OP` sets: the option's words and, after a blank, the
/// argument's words, all without gaps, in brackets.
pub open spec fn option_word_spec(opt: Seq<WordView>, arg: Option<Seq<WordView>>) -> WordView {
    let text = match arg {
        Some(a) => "["@ + run_text(opt) + " "@ + run_text(a) + "]"@,
        None => "["@ + run_text(opt) + "]"@,
    };
    let width = match arg {
        Some(a) => 3 + run_width(opt) + run_width(a),
        None => 2 + run_width(opt),
    };
    WordView { text, width: width as usize, gap: 1, sentence_end: false, adjustable: true }
}

/// Appends the words of `ws` without gaps to `text`, adding their columns
/// to `width`.
fn append_run(text: &mut String, width: &mut usize, ws: &[Word])
    requires
        *old(width) + run_width(words_view(ws@)) <= usize::MAX,
    ensures
        final(text)@ == old(text)@ + run_text(words_view(ws@)),
        *final(width) == *old(width) + run_width(words_view(ws@)),
{
    let ghost wv = words_view(ws@);
    let ghost t0 = text@;
    let ghost w0 = *width;
    let mut k: usize = 0;
    proof {
        assert(wv.take(0) =~= Seq::<WordView>::empty());
        lemma_run_width_prefix(wv, 0);
    }
    while k < ws.len()
        invariant
            k <= ws@.len(),
            wv == words_view(ws@),
            text@ == t0 + run_text(wv.take(k as int)),
            *width == w0 + run_width(wv.take(k as int)),
            w0 + run_width(wv) <= usize::MAX,
        decreases ws.len() - k,
    {
        proof {
            assert(wv.take(k + 1).drop_last() =~= wv.take(k as int));
            lemma_run_width_prefix(wv, k + 1);
        }
        text.append(ws[k].text.as_str());
        *width = *width + ws[k].width;
        k += 1;
    }
    proof {
        assert(wv.take(ws.len() as int) =~= wv);
    }
}

proof fn lemma_run_width_nonneg(ws: Seq<WordView>)
    ensures
        0 <= run_width(ws),
    decreases ws.len(),
{
    if ws.len() > 0 {
        lemma_run_width_nonneg(ws.drop_last());
    }
}

proof fn lemma_run_width_prefix(ws: Seq<WordView>, i: int)
    requires
        0 <= i <= ws.len(),
    ensures
        0 <= run_width(ws.take(i)) <= run_width(ws),
    decreases ws.len() - i,
{
    lemma_run_width_nonneg(ws.take(i));
    if i < ws.len() {
        lemma_run_width_prefix(ws, i + 1);
        assert(ws.take(i + 1).drop_last() =~= ws.take(i));
    } else {
        assert(ws.take(i) =~= ws);
    }
}

/// The word `.OP` sets.
pub fn option_word(opt: &[Word], arg: Option<&[Word]>) -> (r: Word)
    requires
        3 + run_width(words_view(opt@)) + match arg {
            Some(a) => run_width(words_view(a@)),
            None => 0,
        } <= usize::MAX,
    ensures
        r@ == option_word_spec(words_view(opt@), match arg {
            Some(a) => Some(words_view(a@)),
            None => None,
        }),
{
    proof {
        lemma_run_width_prefix(words_view(opt@), 0);
        assert(words_view(opt@).take(0) =~= Seq::<WordView>::empty());
        match arg {
            Some(a) => {
                lemma_run_width_prefix(words_view(a@), 0);
                assert(words_view(a@).take(0) =~= Seq::<WordView>::empty());
            },
            None => {},
        }
    }
    let mut text = String::from_str("[");
    let mut width: usize = 1;
    append_run(&mut text, &mut width, opt);
    match arg {
        Some(a) => {
            text.append(" ");
            width = width + 1;
            append_run(&mut text, &mut width, a);
        },
        None => {},
    }
    text.append("]");
    width = width + 1;
    let r = Word { text, width, gap: 1, sentence_end: false, adjustable: true };
    proof {
        assert(r@ =~= option_word_spec(words_view(opt@), match arg {
            Some(a) => Some(words_view(a@)),
            None => None,
        }));
    }
    r
}

/// Where a tag of `tag_width` columns goes before a body indented `ind`
/// columns: on the body's first line, padded by the columns returned,
/// when it leaves a blank before the body; else on a line of its own.
pub fn tag_padding(tag_width: usize, ind: usize) -> (r: Option<usize>)
    ensures
        r == (if tag_width + 1 <= ind { Some((ind - tag_width - 1) as usize) } else { None::<usize> }),
{
    if tag_width < ind {
        Some(ind - tag_width - 1)
    } else {
        None
    }
}

} // verus!
