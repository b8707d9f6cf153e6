//! What stands at the beginning of each line.
use std::borrow::Cow;

use vstd::prelude::*;
use vstd::string::*;

use crate::text::{
    byte_len, byte_length, indent_len, indent_length, make_blanks, repeated, same_text,
};

verus! {

/// The contents of a [`Padding`].
#[verifier::ext_equal]
pub struct PaddingView {
    /// The paddings, the outermost first.
    pub stack: Seq<Seq<char>>,
    /// The positions in `stack` at which padding was added for alignment, the latest last.
    pub alignments: Seq<nat>,
}

impl PaddingView {
    /// No padding.
    pub open spec fn empty() -> PaddingView {
        PaddingView { stack: seq![], alignments: seq![] }
    }

    /// What is written at the beginning of a line.
    pub open spec fn line_start(self) -> Seq<char> {
        self.stack.flatten()
    }

    /// The outermost padding.
    pub open spec fn outermost(self) -> Seq<char> {
        if self.stack.len() > 0 {
            self.stack[0]
        } else {
            seq![]
        }
    }

    /// Whether the innermost padding was added for alignment.
    pub open spec fn ends_aligned(self) -> bool {
        &&& self.stack.len() > 0
        &&& self.alignments.len() > 0
        &&& self.alignments.last() == self.stack.len() - 1
    }

    /// Whether the innermost padding is `p`.
    pub open spec fn ends_with(self, p: Seq<char>) -> bool {
        self.stack.len() > 0 && self.stack.last() == p
    }

    /// This padding with `p` inside it.
    pub open spec fn push(self, p: Seq<char>) -> PaddingView {
        PaddingView { stack: self.stack.push(p), ..self }
    }

    /// This padding with as many spaces inside it as `removed` begins with, if `removed` is
    /// indented and wider than the innermost padding that is left.
    pub open spec fn align_to(self, removed: Seq<char>) -> PaddingView {
        if indent_len(removed) > 0 && self.stack.len() > 0 && byte_len(self.stack.last())
            < byte_len(removed) {
            PaddingView {
                stack: self.stack.push(repeated(' ', indent_len(removed))),
                alignments: self.alignments.push(self.stack.len()),
            }
        } else {
            self
        }
    }

    /// This padding without what was added for alignment on the inside of it.
    pub open spec fn unaligned(self) -> PaddingView
        decreases self.stack.len(),
    {
        if self.ends_aligned() {
            PaddingView {
                stack: self.stack.drop_last(),
                alignments: self.alignments.drop_last(),
            }.unaligned()
        } else {
            self
        }
    }

    /// Whether what was added for alignment is known, and stands in some other padding.
    pub open spec fn is_well_formed(self) -> bool {
        &&& forall|i: int|
            0 <= i < self.alignments.len() ==> 0 < #[trigger] self.alignments[i] < self.stack.len()
        &&& forall|i: int, j: int|
            0 <= i < j < self.alignments.len() ==> self.alignments[i] < self.alignments[j]
    }

    /// The padding that is removed by a `pop`: the innermost one, or the one around it if the
    /// innermost one was added for alignment.
    pub open spec fn popped(self) -> Option<Seq<char>> {
        let depth: int = if self.ends_aligned() {
            2
        } else {
            1
        };
        if self.stack.len() < depth {
            None
        } else {
            Some(self.stack[self.stack.len() - depth])
        }
    }

    /// What is left by a `pop`.
    pub open spec fn pop(self) -> PaddingView {
        if self.popped() is None {
            PaddingView { stack: seq![], ..self }
        } else if self.ends_aligned() {
            PaddingView {
                stack: self.stack.take(self.stack.len() - 2),
                alignments: self.alignments.drop_last(),
            }.align_to(self.popped()->0)
        } else {
            PaddingView { stack: self.stack.drop_last(), ..self }.align_to(self.popped()->0)
        }
    }
}

/// A stack of what is to be written at the beginning of each line.
#[derive(Clone, Debug, PartialEq, Eq, PartialOrd, Ord, Hash)]
pub struct Padding<'a> {
    /// Stack of padding
    padding_stack: Vec<Cow<'a, str>>,
    /// Stack of indexes on the padding stack where extra alignment was added
    nested_alignment: Vec<usize>,
}

impl<'a> View for Padding<'a> {
    type V = PaddingView;

    closed spec fn view(&self) -> PaddingView {
        PaddingView {
            stack: self.padding_stack.deep_view(),
            alignments: self.nested_alignment@.map_values(|i: usize| i as nat),
        }
    }
}

impl<'a> Default for Padding<'a> {
    fn default() -> (r: Self)
        ensures
            r@ == PaddingView::empty(),
    {
        let r = Padding { padding_stack: Vec::new(), nested_alignment: Vec::new() };
        assert(r@ =~= PaddingView::empty());
        r
    }
}

/// Returns the text of `c`.
pub(crate) fn cow_str<'b>(c: &'b Cow<'_, str>) -> (s: &'b str)
    ensures
        s@ == c@,
{
    match c {
        Cow::Borrowed(b) => b,
        Cow::Owned(o) => o.as_str(),
    }
}

impl<'a> Padding<'a> {
    /// Adds `padding` on the inside.
    pub fn push(&mut self, padding: Cow<'a, str>)
        ensures
            final(self)@ == old(self)@.push(padding@),
    {
        self.padding_stack.push(padding);
        assert(self@ =~= old(self)@.push(padding@));
    }

    /// Removes the innermost padding, with the padding that was added inside it for alignment.
    /// If what is removed is indented, and wider than what it stood in, its indentation stays as
    /// padding for alignment, so that what follows starts in the same column:
    ///
    /// ```text
    /// *  > block quote
    ///    > more block quote
    ///    * nested list at the same indentation as the block quote
    /// ```
    pub fn pop(&mut self) -> (r: Option<Cow<'a, str>>)
        ensures
            final(self)@ == old(self)@.pop(),
            r is Some == old(self)@.popped() is Some,
            r matches Some(p) ==> p@ == old(self)@.popped()->0,
    {
        let is_last_alignment = self.is_last_alignment_padding();
        let mut last_padding = match self.padding_stack.pop() {
            Some(p) => p,
            None => {
                return None;
            },
        };
        if is_last_alignment {
            last_padding = match self.padding_stack.pop() {
                Some(p) => p,
                None => {
                    return None;
                },
            };
            self.nested_alignment.pop();
        }
        let depth: usize = self.padding_stack.len();
        let padding_from_last: usize = if depth > 0 {
            byte_length(cow_str(&self.padding_stack[depth - 1]))
        } else {
            0
        };
        let padding_from_popped: usize = byte_length(cow_str(&last_padding));
        let leading_whitespace: usize = indent_length(cow_str(&last_padding));
        if leading_whitespace > 0 && padding_from_last < padding_from_popped && depth > 0 {
            self.padding_stack.push(Cow::Owned(make_blanks(leading_whitespace)));
            self.nested_alignment.push(depth);
        }
        assert(self@ =~= old(self)@.pop());
        Some(last_padding)
    }

    /// Removes the padding that was added for alignment on the inside, as often as there is some.
    pub fn drop_alignment(&mut self)
        ensures
            final(self)@ == old(self)@.unaligned(),
    {
        while self.is_last_alignment_padding()
            invariant
                self@.unaligned() == old(self)@.unaligned(),
            decreases self@.stack.len(),
        {
            let ghost before = self@;
            self.padding_stack.pop();
            self.nested_alignment.pop();
            assert(self@ =~= PaddingView {
                stack: before.stack.drop_last(),
                alignments: before.alignments.drop_last(),
            });
        }
    }

    /// Tells whether the innermost padding was added for alignment.
    pub fn is_last_alignment_padding(&self) -> (r: bool)
        ensures
            r == self@.ends_aligned(),
    {
        let stack_size: usize = self.padding_stack.len();
        let count: usize = self.nested_alignment.len();
        stack_size > 0 && count > 0 && self.nested_alignment[count - 1] == stack_size - 1
    }

    /// Tells whether the innermost padding is `padding`.
    pub fn last_padding_was(&self, padding: &str) -> (r: bool)
        ensures
            r == self@.ends_with(padding@),
    {
        let stack_size: usize = self.padding_stack.len();
        stack_size > 0 && same_text(cow_str(&self.padding_stack[stack_size - 1]), padding)
    }
}

impl<'a> std::ops::Deref for Padding<'a> {
    type Target = Vec<Cow<'a, str>>;

    fn deref(&self) -> (r: &Vec<Cow<'a, str>>)
        ensures
            r.deep_view() == self@.stack,
    {
        &self.padding_stack
    }
}

impl<'a> From<Vec<&'a str>> for Padding<'a> {
    fn from(padding_stack: Vec<&'a str>) -> (r: Self)
        ensures
            r@ == (PaddingView { stack: padding_stack.deep_view(), alignments: seq![] }),
    {
        let mut stack: Vec<Cow<'a, str>> = Vec::new();
        let mut i: usize = 0;
        while i < padding_stack.len()
            invariant
                i <= padding_stack.len(),
                stack.len() == i,
                stack.deep_view() =~= padding_stack.deep_view().take(i as int),
            decreases padding_stack.len() - i,
        {
            stack.push(Cow::Borrowed(padding_stack[i]));
            i += 1;
        }
        let r = Padding { padding_stack: stack, nested_alignment: Vec::new() };
        assert(r@ =~= PaddingView { stack: padding_stack.deep_view(), alignments: seq![] });
        r
    }
}

/// The contract of `from` says what its result holds.
impl<'a> vstd::std_specs::convert::FromSpecImpl<Vec<&'a str>> for Padding<'a> {
    open spec fn obeys_from_spec() -> bool {
        false
    }

    open spec fn from_spec(padding_stack: Vec<&'a str>) -> Self {
        arbitrary()
    }
}

} // verus!
