//! The text of a formatted page: its output lines, the footer of a man
//! page, and the internal markers taken out.
use vstd::prelude::*;
use crate::text::{chars_of, push_char};
use crate::groff::render::texts_view;

verus! {

/// The lines without the empty lines at their end.
pub open spec fn trim_blank_end(ls: Seq<Seq<char>>) -> Seq<Seq<char>>
    decreases ls.len(),
{
    if ls.len() > 0 && ls.last().len() == 0 {
        trim_blank_end(ls.drop_last())
    } else {
        ls
    }
}

/// The lines of a page: after a man page's lines an empty line and the
/// footer; other pages lose their trailing empty lines.
pub open spec fn page_lines(out: Seq<Seq<char>>, footer: Option<Seq<char>>) -> Seq<Seq<char>> {
    match footer {
        Some(f) => out.push(Seq::empty()).push(f),
        None => trim_blank_end(out),
    }
}

/// Each line followed by a newline.
pub open spec fn with_newlines(ls: Seq<Seq<char>>) -> Seq<char>
    decreases ls.len(),
{
    if ls.len() == 0 {
        Seq::empty()
    } else {
        with_newlines(ls.drop_last()) + ls.last().push('\n')
    }
}

/// A character as printed: the non-breaking hyphen as `-`, the markers
/// of zero width and of no hyphenation as nothing.
pub open spec fn printed(c: char) -> Seq<char> {
    if c == '\u{2011}' {
        seq!['-']
    } else if c == '\u{E000}' || c == '\u{E001}' {
        Seq::empty()
    } else {
        seq![c]
    }
}

/// A text as printed.
pub open spec fn printed_text(s: Seq<char>) -> Seq<char>
    decreases s.len(),
{
    if s.len() == 0 {
        Seq::empty()
    } else {
        printed_text(s.drop_last()) + printed(s.last())
    }
}

/// The text of a page: its lines joined by newlines and ended by one
/// (a page without lines is one newline), as printed.
pub open spec fn page_spec(out: Seq<Seq<char>>, footer: Option<Seq<char>>) -> Seq<char> {
    let ls = page_lines(out, footer);
    let joined = if ls.len() == 0 { seq!['\n'] } else { with_newlines(ls) };
    printed_text(joined)
}

/// Appends `s` as printed to `acc`.
fn push_printed(acc: &mut String, s: &str)
    ensures
        final(acc)@ == old(acc)@ + printed_text(s@),
{
    let v = chars_of(s);
    let ghost a0 = acc@;
    let mut i: usize = 0;
    proof {
        assert(v@.take(0) =~= Seq::<char>::empty());
    }
    while i < v.len()
        invariant
            i <= v@.len(),
            v@ == s@,
            acc@ == a0 + printed_text(v@.take(i as int)),
        decreases v.len() - i,
    {
        let c = v[i];
        proof {
            assert(v@.take(i + 1).drop_last() =~= v@.take(i as int));
        }
        if c == '\u{2011}' {
            push_char(acc, '-');
        } else if c != '\u{E000}' && c != '\u{E001}' {
            push_char(acc, c);
        }
        i += 1;
        proof {
            assert(acc@ =~= a0 + printed_text(v@.take(i as int)));
        }
    }
    proof {
        assert(v@.take(v@.len() as int) =~= v@);
    }
}

proof fn lemma_printed_concat(a: Seq<char>, b: Seq<char>)
    ensures
        printed_text(a + b) == printed_text(a) + printed_text(b),
    decreases b.len(),
{
    if b.len() == 0 {
        assert(a + b =~= a);
    } else {
        lemma_printed_concat(a, b.drop_last());
        assert((a + b).drop_last() =~= a + b.drop_last());
        assert((a + b).last() == b.last());
    }
}

proof fn lemma_append_line(prev: Seq<Seq<char>>, line: Seq<char>)
    ensures
        printed_text(with_newlines(prev.push(line))) == printed_text(with_newlines(prev)) + printed_text(line)
            + seq!['\n'],
{
    assert(prev.push(line).drop_last() =~= prev);
    lemma_printed_concat(with_newlines(prev), line.push('\n'));
    assert(line.push('\n').drop_last() =~= line);
    assert(printed('\n') =~= seq!['\n']);
}

proof fn lemma_newline_printed()
    ensures
        printed_text("\n"@) == seq!['\n'],
{
    reveal_strlit("\n");
    assert("\n"@ =~= seq!['\n']);
    assert("\n"@.drop_last() =~= Seq::<char>::empty());
    assert(printed_text(Seq::<char>::empty()) =~= Seq::<char>::empty());
    assert(printed('\n') =~= seq!['\n']);
    assert(Seq::<char>::empty() + seq!['\n'] =~= seq!['\n']);
}

/// The text of a page from its output lines and, for a man page, its
/// footer line.
pub fn page_text(out: &[String], footer: Option<&str>) -> (r: String)
    ensures
        r@ == page_spec(texts_view(out@), match footer {
            Some(f) => Some(f@),
            None => None,
        }),
{
    let ghost ov = texts_view(out@);
    let ghost fv = match footer {
        Some(f) => Some(f@),
        None => None::<Seq<char>>,
    };
    proof {
        lemma_newline_printed();
        reveal_strlit("\n");
        assert("\n"@ =~= seq!['\n']);
        assert(ov.take(out@.len() as int) =~= ov);
    }
    let mut n = out.len();
    if footer.is_none() {
        while n > 0 && out[n - 1].as_str().unicode_len() == 0
            invariant
                n <= out@.len(),
                ov == texts_view(out@),
                trim_blank_end(ov.take(n as int)) == trim_blank_end(ov),
            decreases n,
        {
            proof {
                assert(ov.take(n as int).drop_last() =~= ov.take(n - 1));
            }
            n -= 1;
        }
        proof {
            if n > 0 {
                assert(ov.take(n as int).last() == ov[n - 1]);
            }
            assert(trim_blank_end(ov.take(n as int)) == ov.take(n as int));
        }
    }
    let ghost ls = page_lines(ov, fv);
    let mut r = String::new();
    let mut k: usize = 0;
    proof {
        assert(ls.take(0) =~= Seq::<Seq<char>>::empty());
    }
    while k < n
        invariant
            k <= n <= out@.len(),
            ov == texts_view(out@),
            printed_text("\n"@) == seq!['\n'],
            footer is None ==> ls == ov.take(n as int),
            footer is Some ==> n == out@.len() && ls == ov.push(Seq::empty()).push(fv->Some_0),
            r@ == printed_text(with_newlines(ls.take(k as int))),
        decreases n - k,
    {
        proof {
            assert(ls.take(k + 1) =~= ls.take(k as int).push(out@[k as int]@));
            lemma_append_line(ls.take(k as int), out@[k as int]@);
        }
        push_printed(&mut r, out[k].as_str());
        push_printed(&mut r, "\n");
        k += 1;
    }
    match footer {
        Some(f) => {
            proof {
                assert(ls.take(n + 1) =~= ls.take(n as int).push(Seq::empty()));
                assert(ls.take(n + 2) =~= ls.take(n + 1).push(f@));
                assert(ls.take(n + 2) =~= ls);
                lemma_append_line(ls.take(n as int), Seq::empty());
                lemma_append_line(ls.take(n + 1), f@);
                assert(printed_text(Seq::<char>::empty()) =~= Seq::<char>::empty());
            }
            push_printed(&mut r, "\n");
            push_printed(&mut r, f);
            push_printed(&mut r, "\n");
        },
        None => {
            if n == 0 {
                push_printed(&mut r, "\n");
            }
            proof {
                assert(ls.take(n as int) =~= ls);
                if n == 0 {
                    assert(with_newlines(ls.take(0)) =~= Seq::<char>::empty());
                }
            }
        },
    }
    r
}


/// The output of a page as it grows: its lines, whether blank lines are
/// held back (no-space mode, after a paragraph macro or a heading),
/// whether the last thing set was a heading, and the line spacing.
pub struct PageOutput {
    pub lines: Vec<String>,
    pub no_space: bool,
    pub after_heading: bool,
    pub line_spacing: usize,
}

/// A `PageOutput` as plain values.
pub struct PageOutputView {
    pub lines: Seq<Seq<char>>,
    pub no_space: bool,
    pub after_heading: bool,
    pub line_spacing: usize,
}

impl View for PageOutput {
    type V = PageOutputView;

    open spec fn view(&self) -> PageOutputView {
        PageOutputView {
            lines: texts_view(self.lines@),
            no_space: self.no_space,
            after_heading: self.after_heading,
            line_spacing: self.line_spacing,
        }
    }
}

/// `n` empty lines.
pub open spec fn empty_lines(n: nat) -> Seq<Seq<char>> {
    Seq::new(n, |i: int| Seq::<char>::empty())
}

impl PageOutput {
    /// An empty page with single spacing.
    pub fn new() -> (r: PageOutput)
        ensures
            r@ == (PageOutputView { lines: Seq::empty(), no_space: false, after_heading: false, line_spacing: 1 }),
    {
        let r = PageOutput { lines: Vec::new(), no_space: false, after_heading: false, line_spacing: 1 };
        proof {
            assert(texts_view(r.lines@) =~= Seq::<Seq<char>>::empty());
        }
        r
    }

    fn push_empty_lines(&mut self, n: usize)
        ensures
            final(self)@ == (PageOutputView { lines: old(self)@.lines + empty_lines(n as nat), ..old(self)@ }),
    {
        let ghost l0 = self@.lines;
        let mut k: usize = 0;
        proof {
            assert(l0 + empty_lines(0) =~= l0);
        }
        while k < n
            invariant
                k <= n,
                self@ == (PageOutputView { lines: l0 + empty_lines(k as nat), ..old(self)@ }),
            decreases n - k,
        {
            let ghost before = self.lines@;
            self.lines.push(String::new());
            proof {
                assert(texts_view(self.lines@) =~= texts_view(before).push(Seq::<char>::empty()));
                assert(l0 + empty_lines((k + 1) as nat) =~= (l0 + empty_lines(k as nat)).push(Seq::<char>::empty()));
            }
            k += 1;
        }
    }

    /// Adds an output line, and the empty lines of the line spacing after
    /// it.
    pub fn push_line(&mut self, s: String)
        ensures
            final(self)@ == (PageOutputView {
                lines: old(self)@.lines.push(s@) + empty_lines(
                    if old(self).line_spacing >= 1 { (old(self).line_spacing - 1) as nat } else { 0 },
                ),
                ..old(self)@
            }),
    {
        let ghost l0 = self@.lines;
        let ghost sv = s@;
        self.lines.push(s);
        proof {
            assert(texts_view(self.lines@) =~= l0.push(sv));
        }
        let extra: usize = if self.line_spacing >= 1 {
            self.line_spacing - 1
        } else {
            0
        };
        self.push_empty_lines(extra);
    }

    /// Blank lines (`.sp`): `n` empty lines, unless they are held back.
    pub fn blank_lines(&mut self, n: usize)
        ensures
            final(self)@ == (if old(self).no_space {
                old(self)@
            } else {
                PageOutputView { lines: old(self)@.lines + empty_lines(n as nat), ..old(self)@ }
            }),
    {
        if self.no_space {
            return;
        }
        self.push_empty_lines(n);
    }

    /// The space before a paragraph: `pd` empty lines unless they are held
    /// back or nothing was set yet; then blank lines are held back until
    /// text is set.
    pub fn paragraph_space(&mut self, pd: usize)
        ensures
            final(self)@ == (PageOutputView {
                lines: if !old(self).no_space && old(self)@.lines.len() > 0 {
                    old(self)@.lines + empty_lines(pd as nat)
                } else {
                    old(self)@.lines
                },
                no_space: true,
                after_heading: false,
                ..old(self)@
            }),
    {
        if !self.no_space && self.lines.len() > 0 {
            self.push_empty_lines(pd);
        }
        self.no_space = true;
        self.after_heading = false;
    }
}

} // verus!
