//! What holds of every document.
use vstd::prelude::*;

use crate::event::{CodeBlockKind, Event, Tag};
use crate::model::{
    are_supported, code_mark_len, definitions, entering, event_content, event_state, event_text,
    fence, finalized, reflowed, rendered, state_after, StateView,
};
use crate::options::{base_characters, OptionsView};
use crate::render::{completes, passes, renders};
use crate::state::finalizes;
use crate::text::{last_run, longest_run, repeated};
use crate::write::{emits, Write};

pub mod blocks;
pub mod inlines;
pub mod lines;
pub mod nesting;
pub mod paddings;
pub mod shortcuts;
pub mod sinks;
pub mod tables;
pub mod terms;
pub mod tracking;

verus! {

/// If items are not counted, all events can be rendered.
pub proof fn law_uncounted_items_support_everything(
    o: OptionsView,
    st: StateView,
    events: Seq<Event<'_>>,
)
    requires
        !o.increment_ordered_list_bullets,
    ensures
        are_supported(o, st, events),
    decreases events.len(),
{
    if events.len() > 0 {
        law_uncounted_items_support_everything(o, st, events.drop_last());
    }
}

/// With the default options, all events can be rendered.
pub proof fn law_default_options_support_everything(st: StateView, events: Seq<Event<'_>>)
    ensures
        are_supported(OptionsView::standard(), st, events),
{
    law_uncounted_items_support_everything(OptionsView::standard(), st, events);
}

proof fn lemma_sum_is_associative(a: Seq<char>, b: Seq<char>, c: Seq<char>)
    ensures
        a + b + c == a + (b + c),
{
    assert(a + b + c =~= a + (b + c));
}

/// Serialization can be halted at any time and resumed later: rendering `first`, and then `second`
/// from the state that `first` left, gives the text and the state of rendering both at once.
pub proof fn law_halting_changes_nothing(
    o: OptionsView,
    st: StateView,
    first: Seq<Event<'_>>,
    second: Seq<Event<'_>>,
)
    ensures
        state_after(o, st, first + second) == state_after(o, state_after(o, st, first), second),
        rendered(o, st, first + second) == rendered(o, st, first) + rendered(
            o,
            state_after(o, st, first),
            second,
        ),
        are_supported(o, st, first + second) == (are_supported(o, st, first) && are_supported(
            o,
            state_after(o, st, first),
            second,
        )),
    decreases second.len(),
{
    if second.len() == 0 {
        assert(first + second =~= first);
        assert(rendered(o, st, first) + rendered(o, state_after(o, st, first), second)
            =~= rendered(o, st, first));
    } else {
        law_halting_changes_nothing(o, st, first, second.drop_last());
        assert((first + second).drop_last() =~= first + second.drop_last());
        assert((first + second).last() == second.last());
        lemma_sum_is_associative(
            rendered(o, st, first),
            rendered(o, state_after(o, st, first), second.drop_last()),
            event_text(o, state_after(o, st, first + second.drop_last()), second.last()),
        );
    }
}

/// The characters that always need to be escaped are special even if the tokens are reconfigured.
pub proof fn law_base_characters_are_always_special(o: OptionsView, c: char)
    requires
        base_characters().contains(c),
    ensures
        o.specials().contains(c),
{
    let i = choose|i: int| 0 <= i < base_characters().len() && base_characters()[i] == c;
    assert(o.specials()[i] == c);
}

/// The tokens are special: wherever they are reconfigured, they are escaped too.
pub proof fn law_tokens_are_special(o: OptionsView)
    ensures
        o.specials().contains(o.code_block_token),
        o.specials().contains(o.list_token),
        o.specials().contains(o.emphasis_token),
        forall|i: int| 0 <= i < o.strong_token.len() ==> o.specials().contains(o.strong_token[i]),
{
    reveal_strlit("#\\_*<>`|[]");
    reveal_strlit("**");
    let all = o.specials();
    if o.has_standard_tokens() {
        assert(all[3] == '*' && all[6] == '`');
    } else {
        assert(all[10] == o.code_block_token && all[11] == o.list_token && all[12]
            == o.emphasis_token);
        assert forall|i: int| 0 <= i < o.strong_token.len() implies all.contains(
            o.strong_token[i],
        ) by {
            assert(all[13 + i] == o.strong_token[i]);
        }
    }
}

/// Outside of a code block, a text that begins with a special character is written behind a
/// backslash. Any other text is not, nor is any text in a code block.
pub proof fn law_leading_special_characters_are_escaped(
    o: OptionsView,
    st: StateView,
    t: &str,
)
    ensures
        !st.is_in_code_block && t@.len() > 0 && o.specials().contains(t@[0]) ==> event_content(
            o,
            st,
            Event::Text(t),
        ) == st.due() + reflowed(seq!['\\'] + t@, st.line_start()),
        st.is_in_code_block || t@.len() == 0 || !o.specials().contains(t@[0]) ==> event_content(
            o,
            st,
            Event::Text(t),
        ) == st.due() + reflowed(t@, st.line_start()),
{
}

/// Without padding, text runs over its lines as it stands.
pub proof fn law_text_without_padding_is_kept(t: Seq<char>)
    ensures
        reflowed(t, seq![]) == t,
    decreases t.len(),
{
    if t.len() > 0 {
        law_text_without_padding_is_kept(t.drop_last());
        assert(t.drop_last().push(t.last()) =~= t);
        assert(t.drop_last() + (seq!['\n'] + seq![]) =~= t.drop_last().push('\n'));
    }
}

/// Text on one line is written as it stands, whatever the padding, and no newline is put in.
pub proof fn law_text_on_one_line_is_kept(t: Seq<char>, start: Seq<char>)
    ensures
        reflowed(t, start).contains('\n') == t.contains('\n'),
        !t.contains('\n') ==> reflowed(t, start) == t,
    decreases t.len(),
{
    if t.len() > 0 {
        let before = t.drop_last();
        law_text_on_one_line_is_kept(before, start);
        let whole = reflowed(t, start);
        assert(before.push(t.last()) =~= t);
        if before.contains('\n') {
            let i = choose|i: int| 0 <= i < before.len() && before[i] == '\n';
            assert(t[i] == '\n');
            let r = reflowed(before, start);
            let j = choose|j: int| 0 <= j < r.len() && r[j] == '\n';
            assert(whole[j] == '\n');
        } else if t.last() == '\n' {
            assert(t[t.len() - 1] == '\n');
            assert(whole[reflowed(before, start).len() as int] == '\n');
        } else {
            assert(whole == t);
        }
    }
}

/// Markdown behind HTML is parted from it by a line break, unless the HTML goes on, an element ends
/// or a soft break brings a newline of its own.
pub proof fn law_markdown_is_parted_from_html(
    o: OptionsView,
    st: StateView,
    html: &str,
    next: Event<'_>,
)
    ensures
        event_text(o, event_state(o, st, Event::Html(html)), next) == (if next is Html
            || next is Text || next is End || next is SoftBreak {
            seq![]
        } else {
            st.line_break()
        }) + event_content(o, event_state(o, st, Event::Html(html)), next),
{
}

proof fn lemma_last_run(s: Seq<char>, c: char, k: nat)
    requires
        k <= s.len(),
        forall|i: int| s.len() - k <= i < s.len() ==> s[i] == c,
    ensures
        last_run(s, c) >= k,
    decreases k,
{
    if k > 0 {
        assert(s[s.len() - 1] == c);
        lemma_last_run(s.drop_last(), c, (k - 1) as nat);
    }
}

/// Whether `part` stands in `whole` at `i`.
pub open spec fn stands_at(part: Seq<char>, whole: Seq<char>, i: int) -> bool {
    &&& 0 <= i
    &&& i + part.len() <= whole.len()
    &&& whole.subrange(i, i + part.len()) == part
}

proof fn lemma_longest_run(t: Seq<char>, c: char)
    ensures
        forall|i: int|
            !#[trigger] stands_at(
                repeated(c, longest_run(t, c) + 1),
                t,
                i,
            ),
        longest_run(t, c) == 0 <==> !t.contains(c),
    decreases t.len(),
{
    let n = longest_run(t, c);
    if t.len() > 0 {
        let before = t.drop_last();
        let m = longest_run(before, c);
        lemma_longest_run(before, c);
        assert forall|i: int| !#[trigger] stands_at(repeated(c, n + 1), t, i) by {
            if stands_at(repeated(c, n + 1), t, i) {
                assert forall|j: int| i <= j <= i + n implies t[j] == c by {
                    assert(t.subrange(i, i + n + 1)[j - i] == c);
                }
                if i + n < before.len() {
                    assert(before.subrange(i, i + m + 1) =~= repeated(c, m + 1));
                    assert(stands_at(repeated(c, m + 1), before, i));
                } else {
                    lemma_last_run(t, c, n + 1);
                }
            }
        }
        if t.contains(c) {
            let i = choose|i: int| 0 <= i < t.len() && t[i] == c;
            if i < before.len() {
                assert(before[i] == c);
            }
        }
        if before.contains(c) {
            let i = choose|i: int| 0 <= i < before.len() && before[i] == c;
            assert(t[i] == c);
        }
        if t.last() == c {
            assert(t[t.len() - 1] == c);
        }
    }
}

/// With the default options, inline code does not hold the mark that closes it: no run of tokens in
/// it is as long as the runs around it, and there is none at all in it if there is one token around
/// it.
pub proof fn law_code_does_not_hold_its_mark(o: OptionsView, t: Seq<char>)
    requires
        o.is_standard(),
    ensures
        forall|i: int|
            !#[trigger] stands_at(repeated(o.code_block_token, code_mark_len(o, t)), t, i),
        code_mark_len(o, t) == 1 <==> !t.contains(o.code_block_token),
{
    lemma_longest_run(t, o.code_block_token);
}

/// The marks of the last event tell what the last event was.
pub proof fn law_marks_tell_the_last_event(o: OptionsView, st: StateView, e: Event<'_>)
    ensures
        event_state(o, st, e).last_was_html == e is Html,
        event_state(o, st, e).last_was_text_without_trailing_newline == (e matches Event::Text(t)
            && !(t@.len() > 0 && t@.last() == '\n')),
{
}

/// A code block lasts from its beginning to its end.
pub proof fn law_code_blocks_are_tracked(o: OptionsView, st: StateView, e: Event<'_>)
    ensures
        event_state(o, st, e).is_in_code_block == (match e {
            Event::Start(Tag::CodeBlock(_)) => true,
            Event::End(Tag::CodeBlock(_)) => false,
            _ => st.is_in_code_block,
        }),
{
}

/// The closing fence of a code block begins a line: behind a text that ends with a newline it
/// follows at once, and behind any other text a line break is put in.
pub proof fn law_closing_fences_begin_lines(
    o: OptionsView,
    st: StateView,
    t: &str,
    kind: CodeBlockKind<'_>,
)
    ensures
        t@.len() > 0 && t@.last() == '\n' ==> {
            &&& event_text(
                o,
                event_state(o, st, Event::Text(t)),
                Event::End(Tag::CodeBlock(kind)),
            ) == fence(o)
            &&& st.line_break().is_suffix_of(event_text(o, st, Event::Text(t)))
        },
        t@.len() == 0 || t@.last() != '\n' ==> event_text(
            o,
            event_state(o, st, Event::Text(t)),
            Event::End(Tag::CodeBlock(kind)),
        ) == st.line_break() + fence(o),
{
    assert(seq![] + fence(o) =~= fence(o));
    assert(seq![] + (st.line_break() + fence(o)) =~= st.line_break() + fence(o));
    if t@.len() > 0 && t@.last() == '\n' {
        assert(st.escaped(o, t@).last() == '\n');
    }
}

/// The columns of a table are known from its beginning to its end, and its headers are forgotten
/// with it.
pub proof fn law_tables_are_tracked(o: OptionsView, st: StateView, e: Event<'_>)
    ensures
        event_state(o, st, e).table_alignments == (match e {
            Event::Start(Tag::Table(alignments)) => alignments@,
            Event::End(Tag::Table(_)) => seq![],
            _ => st.table_alignments,
        }),
        e matches Event::End(Tag::Table(_)) ==> event_state(o, st, e).table_headers.len() == 0,
        !(e matches Event::End(Tag::Table(_))) ==> st.table_headers.is_prefix_of(
            event_state(o, st, e).table_headers,
        ),
{
}

/// Line breaks that are due are written before an element, a text or HTML begins, and none are due
/// then. The end of an element may ask for more of them, never for fewer.
pub proof fn law_newlines_are_due_until_written(o: OptionsView, st: StateView, e: Event<'_>)
    ensures
        e is Start || e is Text || e is Html ==> event_state(o, st, e).newlines_before_start == 0,
        e is Text || e is Html ==> st.due().is_prefix_of(event_content(o, st, e)),
        e matches Event::Start(tag) ==> entering(o, st, tag).due().is_prefix_of(
            event_content(o, st, e),
        ),
        e is End ==> event_state(o, st, e).newlines_before_start >= st.newlines_before_start,
{
}

/// A state that was finalized has nothing left to define: finalizing it again writes nothing and
/// changes nothing.
pub proof fn law_finalizing_twice_changes_nothing(st: StateView)
    ensures
        definitions(finalized(st).shortcuts) == Seq::<char>::empty(),
        finalized(finalized(st)) == finalized(st),
        finalized(st).shortcuts.len() == 0,
{
}

/// A whole document is the rendering of its events and the finalization of the state that they
/// leave, for any sink: who resumes from the initial state and, if nothing was refused, finalizes,
/// has written the document as far as the sink takes it.
pub proof fn law_documents_are_finalized<W: Write>(
    before: W,
    mid: W,
    rendered_all: bool,
    after: W,
    ok: bool,
    o: OptionsView,
    events: Seq<Event<'_>>,
)
    requires
        renders(before, mid, rendered_all, o, StateView::initial(), events),
        rendered_all ==> finalizes(
            mid,
            after,
            ok,
            state_after(o, StateView::initial(), events).shortcuts,
        ),
        !rendered_all ==> !ok && after == mid,
    ensures
        completes(before, after, ok, o, events),
{
    assert(passes(before, mid, rendered_all, after, ok, o, events));
}

/// A string takes everything, so nothing fails that is written to a string.
pub proof fn law_strings_take_everything(before: String, after: String, ok: bool, text: Seq<char>)
    requires
        emits(before, after, ok, text),
    ensures
        ok,
        after@ == before@ + text,
{
}

/// The text and the code in `events`, with `mark` around the code.
pub open spec fn plain_text(events: Seq<Event<'_>>, mark: Seq<char>) -> Seq<char>
    decreases events.len(),
{
    if events.len() == 0 {
        seq![]
    } else {
        plain_text(events.drop_last(), mark) + match events.last() {
            Event::Text(t) => t@,
            Event::Code(t) => mark + t@ + mark,
            _ => seq![],
        }
    }
}

/// Whether `e` is where a table cell begins or ends, or where a table ends.
pub open spec fn bounds_cell(e: Event<'_>) -> bool {
    match e {
        Event::Start(tag) => tag is TableCell,
        Event::End(tag) => tag is TableCell || tag is Table,
        _ => false,
    }
}

proof fn lemma_header_text(o: OptionsView, st: StateView, inner: Seq<Event<'_>>)
    requires
        st.text_for_header is Some,
        forall|i: int| 0 <= i < inner.len() ==> !bounds_cell(#[trigger] inner[i]),
    ensures
        state_after(o, st, inner).text_for_header == Some(
            st.text_for_header->0 + plain_text(inner, seq![o.code_block_token]),
        ),
        state_after(o, st, inner).table_headers == st.table_headers,
    decreases inner.len(),
{
    let mark = seq![o.code_block_token];
    if inner.len() == 0 {
        assert(st.text_for_header->0 + plain_text(inner, mark) =~= st.text_for_header->0);
    } else {
        let before = inner.drop_last();
        lemma_header_text(o, st, before);
        assert(!bounds_cell(inner[inner.len() - 1]));
        assert(state_after(o, st, inner).text_for_header->0 =~= st.text_for_header->0 + plain_text(
            inner,
            mark,
        ));
    }
}

/// A table cell leaves the text and the code in it as a header, or two spaces if there is none.
pub proof fn law_cells_leave_headers(o: OptionsView, st: StateView, inner: Seq<Event<'_>>)
    requires
        forall|i: int| 0 <= i < inner.len() ==> !bounds_cell(#[trigger] inner[i]),
    ensures
        state_after(
            o,
            st,
            seq![Event::Start(Tag::TableCell)] + inner + seq![Event::End(Tag::TableCell)],
        ).table_headers == st.table_headers.push(
            if plain_text(inner, seq![o.code_block_token]).len() > 0 {
                plain_text(inner, seq![o.code_block_token])
            } else {
                "  "@
            },
        ),
{
    let first = Event::Start(Tag::TableCell);
    let last = Event::End(Tag::TableCell);
    let mark = seq![o.code_block_token];
    let opened = event_state(o, st, first);
    law_halting_changes_nothing(o, st, seq![first], inner);
    assert(seq![first].drop_last() =~= seq![]);
    assert(state_after(o, st, seq![first]) == opened);
    lemma_header_text(o, opened, inner);
    assert((seq![first] + inner + seq![last]).drop_last() =~= seq![first] + inner);
    assert(opened.text_for_header->0 + plain_text(inner, mark) =~= plain_text(inner, mark));
}

} // verus!
