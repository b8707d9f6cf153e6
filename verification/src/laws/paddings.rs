//! What the operations on paddings do.
use vstd::prelude::*;
use vstd::utf8::encode_utf8;

use crate::laws::terms::run;
use crate::padding::PaddingView;
use crate::text::{blank_run, indent_len, is_blank, repeated};

verus! {

/// A padding holds what was put on it, the outermost first, and all of it stands at the beginning
/// of a line. It is known what its innermost padding is, and whether that was added for alignment.
pub proof fn law_paddings_hold_what_was_put_on(p: PaddingView, added: Seq<char>)
    ensures
        p.push(added).stack == p.stack.push(added),
        p.push(added).alignments == p.alignments,
        p.push(added).line_start() == p.line_start() + added,
        p.stack.len() == 0 ==> p.line_start() == Seq::<char>::empty(),
        p.line_start() == p.stack.flatten(),
        PaddingView::empty().stack.len() == 0,
        PaddingView::empty().alignments.len() == 0,
        p.push(added).ends_with(added),
        p.ends_with(added) <==> p.stack.len() > 0 && p.stack.last() == added,
        p.ends_aligned() <==> p.stack.len() > 0 && p.alignments.len() > 0 && p.alignments.last()
            == p.stack.len() - 1,
{
    p.stack.lemma_flatten_push(added);
    if p.stack.len() == 0 {
        assert(p.line_start() =~= seq![]);
    }
}

/// What was added for alignment is dropped from the inside as often as there is some.
pub proof fn law_alignment_is_dropped(p: PaddingView)
    ensures
        ({
            let ends = p.stack.len() > 0 && p.alignments.len() > 0 && p.alignments.last()
                == p.stack.len() - 1;
            let fewer = PaddingView {
                stack: p.stack.drop_last(),
                alignments: p.alignments.drop_last(),
            };
            &&& !ends ==> p.unaligned() == p
            &&& ends ==> p.unaligned() == fewer.unaligned()
        }),
{
}

/// Whether `c` is whitespace.
pub open spec fn is_space(c: char) -> bool {
    let n = c as int;
    9 <= n <= 13 || n == 32 || n == 0x85 || n == 0xa0 || n == 0x1680 || 0x2000 <= n <= 0x200a || n
        == 0x2028 || n == 0x2029 || n == 0x202f || n == 0x205f || n == 0x3000
}

proof fn lemma_blank_run_of(blanks: Seq<char>, rest: Seq<char>)
    requires
        forall|i: int| 0 <= i < blanks.len() ==> is_space(#[trigger] blanks[i]),
        rest.len() > 0 ==> !is_space(rest[0]),
    ensures
        blank_run(blanks + rest) == blanks.len(),
    decreases blanks.len(),
{
    if blanks.len() > 0 {
        let fewer = blanks.drop_first();
        assert forall|i: int| 0 <= i < fewer.len() implies is_space(#[trigger] fewer[i]) by {
            assert(fewer[i] == blanks[i + 1]);
        }
        lemma_blank_run_of(fewer, rest);
        assert((blanks + rest).drop_first() =~= fewer + rest);
        assert((blanks + rest)[0] == blanks[0]);
        assert(is_blank(blanks[0]));
    } else if rest.len() > 0 {
        assert((blanks + rest)[0] == rest[0]);
    }
}

/// Where a padding was removed that begins with `blanks` and goes on with `rest`, as many spaces
/// are added for alignment as `blanks` has bytes, if `rest` is not empty and the innermost padding
/// that is left has fewer bytes than what was removed.
pub proof fn law_what_was_indented_leaves_its_indentation(
    p: PaddingView,
    blanks: Seq<char>,
    rest: Seq<char>,
)
    requires
        forall|i: int| 0 <= i < blanks.len() ==> is_space(#[trigger] blanks[i]),
        rest.len() > 0 ==> !is_space(rest[0]),
    ensures
        ({
            let width = encode_utf8(blanks).len();
            let aligns = rest.len() > 0 && width > 0 && p.stack.len() > 0 && encode_utf8(
                p.stack.last(),
            ).len() < encode_utf8(blanks + rest).len();
            let later = p.align_to(blanks + rest);
            &&& !aligns ==> later == p
            &&& aligns ==> later.stack == p.stack.push(run(' ', width))
            &&& aligns ==> later.alignments == p.alignments.push(p.stack.len())
        }),
{
    lemma_blank_run_of(blanks, rest);
    assert((blanks + rest).take(blanks.len() as int) =~= blanks);
    let width = encode_utf8(blanks).len();
    assert(repeated(' ', width) =~= run(' ', width));
    assert(rest.len() > 0 ==> indent_len(blanks + rest) == width);
    assert(rest.len() == 0 ==> indent_len(blanks + rest) == 0);
}

/// What is taken off is the innermost padding, or the one around it if the innermost one was added
/// for alignment, which goes with it. The rest stays, aligned to what was taken off.
pub proof fn law_the_innermost_padding_is_taken_off(p: PaddingView)
    ensures
        ({
            let n = p.stack.len();
            let ends = n > 0 && p.alignments.len() > 0 && p.alignments.last() == n - 1;
            let one = PaddingView { stack: p.stack.drop_last(), alignments: p.alignments };
            let two = PaddingView {
                stack: p.stack.drop_last().drop_last(),
                alignments: p.alignments.drop_last(),
            };
            if n > 0 && !ends {
                p.popped() == Some(p.stack[n - 1]) && p.pop() == one.align_to(p.stack[n - 1])
            } else if n > 1 {
                p.popped() == Some(p.stack[n - 2]) && p.pop() == two.align_to(p.stack[n - 2])
            } else {
                p.popped() is None && p.pop().stack.len() == 0 && p.pop().alignments
                    == p.alignments
            }
        }),
{
    if p.ends_aligned() && p.stack.len() > 1 {
        assert(p.stack.drop_last().drop_last() =~= p.stack.take(p.stack.len() - 2));
    }
}

} // verus!
