//! What a sink is handed.
use vstd::prelude::*;

use crate::event::Event;
use crate::laws::law_text_on_one_line_is_kept;
use crate::laws::terms::{line_end, margin};
use crate::lines::lemma_reflowed_sum;
use crate::model::{definitions, document, event_text, reflowed, rendered, state_after, StateView};
use crate::options::OptionsView;
use crate::padding::PaddingView;
use crate::render::{broken, completes, fails_at, lead, passes, renders, writes_on};
use crate::state::finalizes;
use crate::write::{breaks_off, breaks_off_at, emits, stops_at_once, Write};

verus! {

/// A sink that took everything was handed the text, all of it and nothing else, behind what it was
/// handed before. One that refused something was handed a beginning of the text. Which of the two
/// it was is told truly.
pub proof fn law_sinks_are_handed_the_text<W: Write>(
    before: W,
    after: W,
    ok: bool,
    text: Seq<char>,
)
    requires
        emits(before, after, ok, text),
    ensures
        ok ==> after.offered() == before.offered() + text,
        ok <==> after.refusals() == before.refusals(),
        !ok ==> after.refusals() > before.refusals(),
        before.offered().is_prefix_of(after.offered()),
        after.offered().is_prefix_of(before.offered() + text),
{
}

/// Rendering hands the text of the events to the sink, and finalizing the definitions. A whole
/// document is both.
pub proof fn law_sinks_are_handed_the_document<W: Write>(
    before: W,
    after: W,
    ok: bool,
    o: OptionsView,
    st: StateView,
    events: Seq<Event<'_>>,
)
    ensures
        renders(before, after, ok, o, st, events) ==> {
            &&& emits(before, after, ok, rendered(o, st, events))
            &&& ok ==> after.offered() == before.offered() + rendered(o, st, events)
            &&& events.len() == 0 ==> ok && after == before
        },
        finalizes(before, after, ok, st.shortcuts) ==> {
            &&& emits(before, after, ok, definitions(st.shortcuts))
            &&& ok ==> after.offered() == before.offered() + definitions(st.shortcuts)
            &&& st.shortcuts.len() == 0 ==> ok && after == before
            &&& !ok ==> after.refusals() == before.refusals() + 1 && after.was_refused()
        },
        completes(before, after, ok, o, events) ==> {
            &&& emits(before, after, ok, document(o, events))
            &&& ok ==> after.offered() == before.offered() + document(o, events)
        },
{
}

/// Rendering that fails has handed over the text of the events before some event, all of which was
/// taken, and nothing behind the text of that event. Unless there is a line break in that text that
/// is written on, nothing was handed over after the refusal.
pub proof fn law_rendering_fails_at_an_event<W: Write>(
    before: W,
    after: W,
    o: OptionsView,
    st: StateView,
    events: Seq<Event<'_>>,
) -> (r: (int, W))
    requires
        renders(before, after, false, o, st, events),
    ensures
        ({
            let (k, mid) = r;
            let e = events[k];
            &&& 0 <= k < events.len()
            &&& mid.refusals() == before.refusals()
            &&& mid.offered() == before.offered() + rendered(o, st, events.take(k))
            &&& after.refusals() > mid.refusals()
            &&& after.offered().is_prefix_of(
                mid.offered() + event_text(o, state_after(o, st, events.take(k)), e),
            )
            &&& e is Start || e is End || e is Text || e is Html || e is SoftBreak || e is HardBreak
                || after.refusals() == mid.refusals() + 1 && after.was_refused()
            &&& !writes_on(e) ==> after.refusals() == mid.refusals() + 1 && after.was_refused()
        }),
{
    let (k, mid) = choose|k: int, mid: W|
        0 <= k < events.len() && #[trigger] fails_at(
            before,
            mid,
            after,
            o,
            st,
            events,
            k,
        );
    (k, mid)
}

/// A whole document is rendered from the initial state, and then finalized. Nothing follows a
/// rendering that failed.
pub proof fn law_nothing_follows_a_failed_rendering<W: Write>(
    before: W,
    after: W,
    ok: bool,
    o: OptionsView,
    events: Seq<Event<'_>>,
) -> (r: (W, bool))
    requires
        completes(before, after, ok, o, events),
    ensures
        ({
            let (mid, all) = r;
            &&& renders(before, mid, all, o, StateView::initial(), events)
            &&& all ==> finalizes(
                mid,
                after,
                ok,
                state_after(o, StateView::initial(), events).shortcuts,
            )
            &&& !all ==> !ok && after == mid
        }),
{
    let (mid, all) = choose|mid: W, all: bool| #[trigger]
        passes(before, mid, all, after, ok, o, events);
    (mid, all)
}

/// A line break that was refused is written on: where an event fails that breaks lines, and the
/// last that the sink was handed was taken, a newline and the whole padding were handed over last.
pub proof fn law_refused_breaks_are_written_on<W: Write>(
    before: W,
    mid: W,
    after: W,
    o: OptionsView,
    st: StateView,
    events: Seq<Event<'_>>,
    k: int,
)
    requires
        0 <= k < events.len(),
        fails_at(before, mid, after, o, st, events, k),
        !after.was_refused(),
    ensures
        line_end(state_after(o, st, events.take(k))).is_suffix_of(after.offered()),
{
    let s = state_after(o, st, events.take(k));
    let e = events[k];
    let t = broken(o, s, e);
    let (line, b, i) = choose|line: W, b: int, i: int| #[trigger]
        breaks_off_at(mid, line, after, lead(o, s, e), t, s.padding, b, i);
    let shown = t.subrange(b, i + 1);
    assert(after.offered() == line.offered() + shown + margin(s));
    assert(shown.last() == '\n');
    assert(line_end(s) =~= after.offered().skip(after.offered().len() - line_end(s).len()));
}

/// The line of a text up to its first newline, that newline and the outermost padding are handed
/// over whether the line and its newline are taken or not, and so it is with the newline of a soft
/// break, and with the spaces and the newline of a hard break.
pub proof fn law_lines_are_handed_over_whole<W: Write>(
    before: W,
    mid: W,
    after: W,
    o: OptionsView,
    st: StateView,
    events: Seq<Event<'_>>,
    k: int,
    i: int,
)
    requires
        0 <= k < events.len(),
        fails_at(before, mid, after, o, st, events, k),
    ensures
        ({
            let s = state_after(o, st, events.take(k));
            let outermost = if s.padding.stack.len() > 0 {
                s.padding.stack[0]
            } else {
                seq![]
            };
            &&& events[k] is SoftBreak ==> (mid.offered() + seq!['\n'] + outermost).is_prefix_of(
                after.offered(),
            )
            &&& events[k] is HardBreak && !s.last_was_html ==> (mid.offered() + seq![
                ' ',
                ' ',
                '\n',
            ] + outermost).is_prefix_of(after.offered())
            &&& events[k] matches Event::Html(t) ==> s.newlines_before_start == 0 && 0 <= i
                < t@.len() && t@[i] == '\n' && !t@.take(i).contains('\n') ==> (mid.offered()
                + t@.take(i + 1) + outermost).is_prefix_of(after.offered())
            &&& events[k] matches Event::Text(t) ==> s.newlines_before_start == 0 && 0 <= i
                < t@.len() && t@[i] == '\n' && !t@.take(i).contains('\n') && s.is_in_code_block
                ==> (mid.offered() + t@.take(i + 1) + outermost).is_prefix_of(after.offered())
        }),
{
    let s = state_after(o, st, events.take(k));
    let e = events[k];
    reveal_strlit("  \n");
    match e {
        Event::SoftBreak => {
            lemma_first_line(mid, after, seq!['\n'], s.padding, 0);
        },
        Event::HardBreak => {
            assert("  \n"@ =~= seq![' ', ' ', '\n']);
            if !s.last_was_html {
                lemma_first_line(mid, after, "  \n"@, s.padding, 2);
            }
        },
        Event::Html(t) => {
            if s.newlines_before_start == 0 && 0 <= i < t@.len() && t@[i] == '\n'
                && !t@.take(i).contains('\n') {
                assert(lead(o, s, e) =~= seq![]);
                assert(t@.contains('\n'));
                lemma_first_line(mid, after, t@, s.padding, i);
            }
        },
        Event::Text(t) => {
            if s.newlines_before_start == 0 && 0 <= i < t@.len() && t@[i] == '\n'
                && !t@.take(i).contains('\n') && s.is_in_code_block {
                assert(lead(o, s, e) =~= seq![]);
                assert(t@.contains('\n'));
                lemma_first_line(mid, after, t@, s.padding, i);
            }
        },
        _ => {},
    }
}

/// What begins with the first line of `t`, its newline and the padding begins with that line, its
/// newline and the outermost padding.
proof fn lemma_begins_with_first_line(
    before: Seq<char>,
    t: Seq<char>,
    p: PaddingView,
    i: int,
    b: int,
    after: Seq<char>,
)
    requires
        0 <= i < b <= t.len(),
        t[i] == '\n',
        !t.take(i).contains('\n'),
        (before + reflowed(t.take(b), p.line_start())).is_prefix_of(after),
    ensures
        (before + t.take(i + 1) + p.outermost()).is_prefix_of(after),
{
    let start = p.line_start();
    let first = t.take(i + 1) + start;
    let rest = t.take(b).skip(i + 1);
    assert(p.outermost().is_prefix_of(start)) by {
        if p.stack.len() > 0 {
            assert(p.stack.flatten() == p.stack[0] + p.stack.drop_first().flatten());
        }
    }
    assert(reflowed(t.take(i + 1), start) == first) by {
        law_text_on_one_line_is_kept(t.take(i), start);
        assert(t.take(i + 1).drop_last() =~= t.take(i));
        assert(first =~= t.take(i) + (seq!['\n'] + start));
    }
    assert(t.take(b) =~= t.take(i + 1) + rest);
    lemma_reflowed_sum(t.take(i + 1), rest, start);
    let whole = before + reflowed(t.take(b), start);
    let begin = before + t.take(i + 1) + p.outermost();
    assert(begin =~= whole.take(begin.len() as int));
    assert(whole =~= after.take(whole.len() as int));
    assert(begin =~= after.take(begin.len() as int));
}

proof fn lemma_first_line<W: Write>(mid: W, after: W, t: Seq<char>, p: PaddingView, i: int)
    requires
        breaks_off(mid, after, seq![], t, p),
        0 <= i < t.len(),
        t[i] == '\n',
        !t.take(i).contains('\n'),
    ensures
        (mid.offered() + t.take(i + 1) + p.outermost()).is_prefix_of(after.offered()),
{
    if exists|line: W, b: int, j: int| #[trigger]
        breaks_off_at(mid, line, after, seq![], t, p, b, j) {
        let (line, b, j) = choose|line: W, b: int, j: int| #[trigger]
            breaks_off_at(mid, line, after, seq![], t, p, b, j);
        lemma_first_line_at(mid, line, after, t, p, i, b, j);
    } else {
        let shown = reflowed(t, p.line_start());
        assert(t.take(t.len() as int) =~= t);
        assert(mid.offered() + seq![] + shown =~= mid.offered() + shown);
        lemma_begins_with_first_line(mid.offered(), t, p, i, t.len() as int, after.offered());
    }
}

proof fn lemma_first_line_at<W: Write>(
    mid: W,
    line: W,
    after: W,
    t: Seq<char>,
    p: PaddingView,
    i: int,
    b: int,
    j: int,
)
    requires
        breaks_off_at(mid, line, after, seq![], t, p, b, j),
        0 <= i < t.len(),
        t[i] == '\n',
        !t.take(i).contains('\n'),
    ensures
        (mid.offered() + t.take(i + 1) + p.outermost()).is_prefix_of(after.offered()),
{
    let head = reflowed(t.take(b), p.line_start());
    assert(mid.offered() + (seq![] + head) =~= mid.offered() + head);
    assert(line.offered() == mid.offered() + head);
    if b == 0 {
        if j < i {
            assert(t.take(i)[j] == '\n');
        }
        if i < j {
            assert(t.subrange(0, j)[i] == '\n');
        }
        assert(t.subrange(0, i + 1) =~= t.take(i + 1));
        assert(line.offered() =~= mid.offered());
    } else {
        if b - 1 < i {
            assert(t.take(i)[b - 1] == '\n');
        }
        lemma_begins_with_first_line(mid.offered(), t, p, i, b, after.offered());
    }
}

/// What stops at once hands nothing over after a refusal.
pub proof fn law_stopping_leaves_one_refusal<W: Write>(before: W, after: W, ok: bool)
    requires
        stops_at_once(before, after, ok),
    ensures
        ok ==> after.refusals() == before.refusals(),
        !ok ==> after.refusals() == before.refusals() + 1 && after.was_refused(),
{
}

} // verus!
