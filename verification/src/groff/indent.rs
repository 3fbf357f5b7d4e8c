//! The indentation of man pages: the base indent of the current section
//! or `.RS` block, the prevailing indent of paragraphs, the stack of
//! relative insets, and the indent of the next output line.
use vstd::prelude::*;

verus! {

/// The left margin of a man page's body text.
pub const BODY_INDENT: usize = 7;

/// The indentation state.
pub struct Indents {
    /// Where body text of the current block starts.
    pub base_indent: usize,
    /// The indent of tagged and hanging paragraphs.
    pub prevail_indent: usize,
    /// The insets of the open `.RS` blocks.
    pub rs_stack: Vec<usize>,
    /// The indent of output lines.
    pub indent: usize,
    /// The indent of the next output line only.
    pub temp_indent: Option<usize>,
}

/// The indentation state as plain values.
pub struct IndentsView {
    pub base_indent: usize,
    pub prevail_indent: usize,
    pub rs_stack: Seq<usize>,
    pub indent: usize,
    pub temp_indent: Option<usize>,
}

impl View for Indents {
    type V = IndentsView;

    open spec fn view(&self) -> IndentsView {
        IndentsView {
            base_indent: self.base_indent,
            prevail_indent: self.prevail_indent,
            rs_stack: self.rs_stack@,
            indent: self.indent,
            temp_indent: self.temp_indent,
        }
    }
}

/// `a - b`, or 0 where `b` is larger.
pub open spec fn sub_or_zero(a: usize, b: usize) -> usize {
    if a >= b {
        (a - b) as usize
    } else {
        0
    }
}

/// Closes insets from the top of `stack` while more than `target - 1`
/// are open, taking each off `base`.
pub open spec fn close_insets(stack: Seq<usize>, base: usize, target: int) -> (Seq<usize>, usize)
    decreases stack.len(),
{
    if stack.len() > 0 && stack.len() + 1 > target {
        close_insets(stack.drop_last(), sub_or_zero(base, stack.last()), target)
    } else {
        (stack, base)
    }
}

/// `.RE`: closes the innermost inset, or every inset above `level`
/// (counted from 1, the page itself); the base indent stays at least the
/// body indent, and lines start there.
pub open spec fn re_spec(s: IndentsView, level: Option<usize>) -> IndentsView {
    let target: int = match level {
        Some(l) => if l >= 1 { l as int } else { 1 },
        None => s.rs_stack.len() as int,
    };
    let (stack, base) = close_insets(s.rs_stack, s.base_indent, target);
    let b = if base < BODY_INDENT { BODY_INDENT } else { base };
    IndentsView { rs_stack: stack, base_indent: b, indent: b, ..s }
}

impl Indents {
    /// The state at the start of a page.
    pub fn new() -> (r: Indents)
        ensures
            r@ == (IndentsView {
                base_indent: BODY_INDENT,
                prevail_indent: BODY_INDENT,
                rs_stack: Seq::empty(),
                indent: 0,
                temp_indent: None,
            }),
    {
        let r = Indents {
            base_indent: BODY_INDENT,
            prevail_indent: BODY_INDENT,
            rs_stack: Vec::new(),
            indent: 0,
            temp_indent: None,
        };
        proof {
            assert(r.rs_stack@ =~= Seq::<usize>::empty());
        }
        r
    }

    /// `.TH`: body text starts at the body indent.
    pub fn title(&mut self)
        ensures
            final(self)@ == (IndentsView { base_indent: BODY_INDENT, indent: BODY_INDENT, ..old(self)@ }),
    {
        self.base_indent = BODY_INDENT;
        self.indent = BODY_INDENT;
    }

    /// `.SH` and `.SS`: every inset closes, and the indents return to the
    /// body indent.
    pub fn section(&mut self)
        ensures
            final(self)@ == (IndentsView {
                base_indent: BODY_INDENT,
                prevail_indent: BODY_INDENT,
                rs_stack: Seq::empty(),
                indent: BODY_INDENT,
                temp_indent: None,
            }),
    {
        self.rs_stack = Vec::new();
        self.base_indent = BODY_INDENT;
        self.prevail_indent = BODY_INDENT;
        self.indent = BODY_INDENT;
        self.temp_indent = None;
        proof {
            assert(self.rs_stack@ =~= Seq::<usize>::empty());
        }
    }

    /// `.PP`: the prevailing indent resets, and lines start at the base.
    pub fn paragraph(&mut self)
        ensures
            final(self)@ == (IndentsView {
                prevail_indent: BODY_INDENT,
                indent: old(self).base_indent,
                temp_indent: None,
                ..old(self)@
            }),
    {
        self.prevail_indent = BODY_INDENT;
        self.indent = self.base_indent;
        self.temp_indent = None;
    }

    /// Sets the prevailing indent where a length was given.
    pub fn set_prevailing(&mut self, len: Option<usize>)
        ensures
            final(self)@ == (IndentsView {
                prevail_indent: match len {
                    Some(v) => v,
                    None => old(self).prevail_indent,
                },
                ..old(self)@
            }),
    {
        if let Some(v) = len {
            self.prevail_indent = v;
        }
    }

    /// `.IP` without a tag: lines start at the prevailing indent past the
    /// base.
    pub fn untagged(&mut self)
        requires
            old(self).base_indent + old(self).prevail_indent <= usize::MAX,
        ensures
            final(self)@ == (IndentsView {
                indent: (old(self).base_indent + old(self).prevail_indent) as usize,
                temp_indent: None,
                ..old(self)@
            }),
    {
        self.indent = self.base_indent + self.prevail_indent;
        self.temp_indent = None;
    }

    /// `.HP`: the first line starts at the base, the others at the
    /// prevailing indent past it.
    pub fn hanging(&mut self)
        requires
            old(self).base_indent + old(self).prevail_indent <= usize::MAX,
        ensures
            final(self)@ == (IndentsView {
                indent: (old(self).base_indent + old(self).prevail_indent) as usize,
                temp_indent: Some(old(self).base_indent),
                ..old(self)@
            }),
    {
        self.temp_indent = Some(self.base_indent);
        self.indent = self.base_indent + self.prevail_indent;
    }

    /// `.RS`: opens an inset of `len` columns, or of the prevailing indent.
    pub fn rs(&mut self, len: Option<usize>)
        requires
            old(self).base_indent + match len {
                Some(v) => v,
                None => old(self).prevail_indent,
            } <= usize::MAX,
        ensures
            ({
                let ind = match len {
                    Some(v) => v,
                    None => old(self).prevail_indent,
                };
                final(self)@ == (IndentsView {
                    rs_stack: old(self).rs_stack@.push(ind),
                    base_indent: (old(self).base_indent + ind) as usize,
                    indent: (old(self).base_indent + ind) as usize,
                    ..old(self)@
                })
            }),
    {
        let ind = match len {
            Some(v) => v,
            None => self.prevail_indent,
        };
        self.rs_stack.push(ind);
        self.base_indent = self.base_indent + ind;
        self.indent = self.base_indent;
    }

    /// `.RE`, with the level its argument names where it names one.
    pub fn re(&mut self, level: Option<usize>)
        ensures
            final(self)@ == re_spec(old(self)@, level),
    {
        let target: usize = match level {
            Some(l) => if l >= 1 {
                l
            } else {
                1
            },
            None => self.rs_stack.len(),
        };
        let ghost t = target as int;
        proof {
            assert(re_spec(old(self)@, level) == ({
                let (stack, base) = close_insets(old(self)@.rs_stack, old(self)@.base_indent, t);
                let b = if base < BODY_INDENT { BODY_INDENT } else { base };
                IndentsView { rs_stack: stack, base_indent: b, indent: b, ..old(self)@ }
            }));
        }
        while self.rs_stack.len() > 0 && self.rs_stack.len() >= target
            invariant
                close_insets(self.rs_stack@, self.base_indent, t) == close_insets(
                    old(self)@.rs_stack,
                    old(self)@.base_indent,
                    t,
                ),
                t == target,
                self.prevail_indent == old(self).prevail_indent,
                self.temp_indent == old(self).temp_indent,
            decreases self.rs_stack.len(),
        {
            let ind = self.rs_stack.pop().unwrap();
            self.base_indent = if self.base_indent >= ind {
                self.base_indent - ind
            } else {
                0
            };
        }
        if self.base_indent < BODY_INDENT {
            self.base_indent = BODY_INDENT;
        }
        self.indent = self.base_indent;
        proof {
            assert(self@ =~= re_spec(old(self)@, level));
        }
    }
}

impl Indents {
    /// `.YS`: lines start at the base again.
    pub fn to_base(&mut self)
        ensures
            final(self)@ == (IndentsView { indent: old(self).base_indent, temp_indent: None, ..old(self)@ }),
    {
        self.indent = self.base_indent;
        self.temp_indent = None;
    }

    /// `.SY`: the command of `width` columns starts the first line at the
    /// base, and the other lines go on one column past it.
    pub fn synopsis(&mut self, width: usize)
        requires
            old(self).base_indent + width + 1 <= usize::MAX,
        ensures
            final(self)@ == (IndentsView {
                indent: (old(self).base_indent + width + 1) as usize,
                temp_indent: Some(old(self).base_indent),
                ..old(self)@
            }),
    {
        self.indent = self.base_indent + width + 1;
        self.temp_indent = Some(self.base_indent);
    }
}

/// An inset that `.RS` opens is closed by the next `.RE`, which gives the
/// base indent back, when it was at least the body indent.
pub proof fn lemma_re_undoes_rs(s: IndentsView, ind: usize)
    requires
        s.base_indent >= BODY_INDENT,
        s.base_indent + ind <= usize::MAX,
    ensures
        ({
            let opened = IndentsView {
                rs_stack: s.rs_stack.push(ind),
                base_indent: (s.base_indent + ind) as usize,
                indent: (s.base_indent + ind) as usize,
                ..s
            };
            let closed = re_spec(opened, None);
            closed.rs_stack == s.rs_stack && closed.base_indent == s.base_indent && closed.indent == s.base_indent
        }),
{
    let stack = s.rs_stack.push(ind);
    let base = (s.base_indent + ind) as usize;
    let target = stack.len() as int;
    assert(stack.drop_last() =~= s.rs_stack);
    assert(close_insets(stack.drop_last(), sub_or_zero(base, stack.last()), target) == (
        s.rs_stack,
        s.base_indent,
    ));
}

} // verus!
