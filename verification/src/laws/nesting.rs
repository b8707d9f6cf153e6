//! What holds of block quotes, lists and items, and of the padding that they put on.
use vstd::prelude::*;

use crate::event::{Event, Tag};
use crate::laws::law_halting_changes_nothing;
use crate::model::{event_state, item_padding, state_after, StateView};
use crate::options::OptionsView;
use crate::padding::PaddingView;
use crate::text::{blank_run, indent_len, repeated};

verus! {

/// Whether `e` is where a block quote or an item begins or ends.
pub open spec fn changes_padding(e: Event<'_>) -> bool {
    match e {
        Event::Start(tag) => tag is BlockQuote || tag is Item,
        Event::End(tag) => tag is BlockQuote || tag is Item,
        _ => false,
    }
}

/// The padding changes only with block quotes and with the items of lists.
pub proof fn law_padding_changes_with_quotes_and_items(
    o: OptionsView,
    st: StateView,
    e: Event<'_>,
)
    requires
        !changes_padding(e),
    ensures
        event_state(o, st, e).padding == st.padding,
{
}

/// A padding that is taken off again is the one that was put on, and what it was put on is left,
/// but for padding that keeps what follows aligned.
pub proof fn law_padding_is_taken_off_as_put_on(p: PaddingView, added: Seq<char>)
    requires
        !p.push(added).ends_aligned(),
    ensures
        p.push(added).popped() == Some(added),
        p.push(added).pop() == p.align_to(added),
{
    assert(p.push(added).stack.drop_last() =~= p.stack);
}

/// Padding that was left for alignment is taken off together with what it was left in.
pub proof fn law_alignment_is_taken_off_with_its_padding(
    p: PaddingView,
    outer: Seq<char>,
    removed: Seq<char>,
)
    requires
        p.push(outer).align_to(removed) != p.push(outer),
    ensures
        p.push(outer).align_to(removed).popped() == Some(outer),
        p.push(outer).align_to(removed).pop() == p.align_to(outer),
{
    let aligned = p.push(outer).align_to(removed);
    assert(aligned.stack.take(aligned.stack.len() - 2) =~= p.stack);
    assert(aligned.alignments.drop_last() =~= p.alignments);
}

proof fn lemma_blanks_are_not_indented(n: nat)
    ensures
        blank_run(repeated(' ', n)) == n,
        indent_len(repeated(' ', n)) == 0,
    decreases n,
{
    if n > 0 {
        lemma_blanks_are_not_indented((n - 1) as nat);
        assert(repeated(' ', n).drop_first() =~= repeated(' ', (n - 1) as nat));
    }
}

proof fn lemma_unaligned(p: PaddingView)
    ensures
        !p.unaligned().ends_aligned(),
        p.unaligned().stack.is_prefix_of(p.stack),
        p.unaligned().stack.len() - p.unaligned().alignments.len() == p.stack.len()
            - p.alignments.len(),
        p.is_well_formed() ==> p.unaligned().is_well_formed(),
        p.is_well_formed() && p.stack.len() > 0 ==> p.unaligned().stack.len() > 0,
    decreases p.stack.len(),
{
    if p.ends_aligned() {
        lemma_unaligned(
            PaddingView { stack: p.stack.drop_last(), alignments: p.alignments.drop_last() },
        );
    }
}

proof fn lemma_alignment_comes_off(p: PaddingView, removed: Seq<char>)
    ensures
        p.align_to(removed).unaligned() == p.unaligned(),
        p.is_well_formed() ==> p.align_to(removed).is_well_formed(),
{
    let aligned = p.align_to(removed);
    if aligned != p {
        assert(PaddingView {
            stack: aligned.stack.drop_last(),
            alignments: aligned.alignments.drop_last(),
        } =~= p);
    }
}

proof fn lemma_closed(p: PaddingView)
    requires
        p.is_well_formed(),
        p.unaligned().stack.len() > 0,
    ensures
        p.unaligned().pop().is_well_formed(),
        p.unaligned().pop() == around(p).align_to(p.unaligned().stack.last()),
        around(p).is_well_formed(),
{
    lemma_unaligned(p);
    let q = p.unaligned();
    assert(q.pop() == around(p).align_to(q.stack.last()));
    assert(around(p).is_well_formed()) by {
        assert forall|i: int| 0 <= i < q.alignments.len() implies #[trigger] q.alignments[i]
            < q.stack.len() - 1 by {
            assert(q.alignments[i] <= q.alignments.last());
        }
    }
    lemma_alignment_comes_off(around(p), q.stack.last());
}

/// A state whose padding is well-formed keeps a well-formed padding, whatever happens.
pub proof fn law_padding_stays_well_formed(o: OptionsView, st: StateView, events: Seq<Event<'_>>)
    requires
        st.padding.is_well_formed(),
    ensures
        state_after(o, st, events).padding.is_well_formed(),
    decreases events.len(),
{
    if events.len() > 0 {
        law_padding_stays_well_formed(o, st, events.drop_last());
        let p = state_after(o, st, events.drop_last()).padding;
        lemma_unaligned(p);
        if p.unaligned().stack.len() > 0 {
            lemma_closed(p);
        }
    }
}

/// An element that stands in others and may hold others.
pub enum Container {
    BlockQuote,
    List,
    Item,
}

/// The containers that are left if the innermost of `open` ends and is `c`.
pub open spec fn without_innermost(open: Seq<Container>, c: Container) -> Option<Seq<Container>> {
    if open.len() > 0 && open.last() == c {
        Some(open.drop_last())
    } else {
        None
    }
}

/// The block quotes, lists and items that have begun in `events` and not ended, the innermost last.
/// There is no answer if one ends that is not the innermost, or if an item begins outside of a
/// list. `in_list` says whether a list has begun before.
pub open spec fn nesting(events: Seq<Event<'_>>, in_list: bool) -> Option<Seq<Container>>
    decreases events.len(),
{
    if events.len() == 0 {
        Some(seq![])
    } else {
        match nesting(events.drop_last(), in_list) {
            None => None,
            Some(open) => match events.last() {
                Event::Start(Tag::BlockQuote) => Some(open.push(Container::BlockQuote)),
                Event::Start(Tag::List(_)) => Some(open.push(Container::List)),
                Event::Start(Tag::Item) => if in_list || open.contains(Container::List) {
                    Some(open.push(Container::Item))
                } else {
                    None
                },
                Event::End(Tag::BlockQuote) => without_innermost(open, Container::BlockQuote),
                Event::End(Tag::List(_)) => without_innermost(open, Container::List),
                Event::End(Tag::Item) => without_innermost(open, Container::Item),
                _ => Some(open),
            },
        }
    }
}

/// How many lists are among `open`.
pub open spec fn lists_in(open: Seq<Container>) -> nat
    decreases open.len(),
{
    if open.len() == 0 {
        0
    } else if open.last() is List {
        lists_in(open.drop_last()) + 1
    } else {
        lists_in(open.drop_last())
    }
}

/// How many block quotes and items are among `open`.
pub open spec fn levels_in(open: Seq<Container>) -> nat
    decreases open.len(),
{
    if open.len() == 0 {
        0
    } else if open.last() is List {
        levels_in(open.drop_last())
    } else {
        levels_in(open.drop_last()) + 1
    }
}

proof fn lemma_list_is_counted(open: Seq<Container>)
    requires
        open.contains(Container::List),
    ensures
        lists_in(open) > 0,
    decreases open.len(),
{
    if !(open.last() is List) {
        let i = choose|i: int| 0 <= i < open.len() && open[i] == Container::List;
        assert(open.drop_last()[i] == Container::List);
        lemma_list_is_counted(open.drop_last());
    }
}

/// What is around the innermost padding that was not added for alignment.
spec fn around(p: PaddingView) -> PaddingView {
    PaddingView { stack: p.unaligned().stack.drop_last(), ..p.unaligned() }
}

/// Whether `p` is what `open` make of the padding `base`.
spec fn fits(p: PaddingView, base: PaddingView, open: Seq<Container>) -> bool
    decreases open.len(),
{
    if open.len() == 0 {
        p.unaligned() == base.unaligned()
    } else if open.last() is List {
        fits(p, base, open.drop_last())
    } else {
        p.unaligned().stack.len() > 0 && fits(around(p), base, open.drop_last())
    }
}

proof fn lemma_fits_unaligned(
    p: PaddingView,
    q: PaddingView,
    base: PaddingView,
    open: Seq<Container>,
)
    requires
        p.unaligned() == q.unaligned(),
    ensures
        fits(p, base, open) == fits(q, base, open),
    decreases open.len(),
{
    if open.len() > 0 && open.last() is List {
        lemma_fits_unaligned(p, q, base, open.drop_last());
    }
}

proof fn lemma_fits_push(
    p: PaddingView,
    added: Seq<char>,
    base: PaddingView,
    open: Seq<Container>,
    c: Container,
)
    requires
        p.is_well_formed(),
        fits(p, base, open),
        !(c is List),
    ensures
        p.push(added).is_well_formed(),
        p.push(added).unaligned() == p.push(added),
        fits(p.push(added), base, open.push(c)),
{
    let pushed = p.push(added);
    assert(pushed.unaligned() == pushed);
    assert(around(pushed) =~= p);
    assert(open.push(c).drop_last() =~= open);
}

/// The padding follows the nesting of the elements: it has one level more for each block quote and
/// each item that has begun and not ended, besides what keeps their contents aligned, and one list
/// is known for each list.
pub proof fn law_padding_follows_the_nesting(o: OptionsView, st: StateView, events: Seq<Event<'_>>)
    requires
        st.padding.is_well_formed(),
        nesting(events, st.list_stack.len() > 0) is Some,
    ensures
        ({
            let open = nesting(events, st.list_stack.len() > 0)->0;
            let later = state_after(o, st, events);
            &&& later.padding.stack.len() - later.padding.alignments.len() == st.padding.stack.len()
                - st.padding.alignments.len() + levels_in(open)
            &&& later.list_stack.len() == st.list_stack.len() + lists_in(open)
        }),
{
    lemma_nesting(o, st, events);
}

proof fn lemma_nesting(o: OptionsView, st: StateView, events: Seq<Event<'_>>)
    requires
        st.padding.is_well_formed(),
        nesting(events, st.list_stack.len() > 0) is Some,
    ensures
        ({
            let open = nesting(events, st.list_stack.len() > 0)->0;
            let later = state_after(o, st, events);
            &&& later.padding.is_well_formed()
            &&& fits(later.padding, st.padding, open)
            &&& later.padding.stack.len() - later.padding.alignments.len() == st.padding.stack.len()
                - st.padding.alignments.len() + levels_in(open)
            &&& later.list_stack.len() == st.list_stack.len() + lists_in(open)
        }),
    decreases events.len(),
{
    if events.len() > 0 {
        let before = events.drop_last();
        lemma_nesting(o, st, before);
        let open = nesting(before, st.list_stack.len() > 0)->0;
        let s = state_after(o, st, before);
        let p = s.padding;
        match events.last() {
            Event::Start(Tag::BlockQuote) => {
                lemma_fits_push(p, o.blockquote, st.padding, open, Container::BlockQuote);
                assert(open.push(Container::BlockQuote).drop_last() =~= open);
            },
            Event::Start(Tag::List(first)) => {
                assert(open.push(Container::List).drop_last() =~= open);
            },
            Event::Start(Tag::Item) => {
                if open.contains(Container::List) {
                    lemma_list_is_counted(open);
                }
                let added = item_padding(s.list_stack.last());
                lemma_fits_push(p, added, st.padding, open, Container::Item);
                assert(open.push(Container::Item).drop_last() =~= open);
            },
            Event::End(tag) => {
                if tag is BlockQuote || tag is Item {
                    lemma_closed(p);
                    lemma_unaligned(p);
                    let removed = p.unaligned().stack.last();
                    lemma_alignment_comes_off(around(p), removed);
                    lemma_fits_unaligned(
                        around(p),
                        around(p).align_to(removed),
                        st.padding,
                        open.drop_last(),
                    );
                }
            },
            _ => {},
        }
    }
}

/// Elements that begin and end in turn leave the padding as it was, but for what keeps their
/// contents aligned on the inside of it, and leave as many lists as there were.
pub proof fn law_balanced_events_keep_the_padding(
    o: OptionsView,
    st: StateView,
    events: Seq<Event<'_>>,
)
    requires
        st.padding.is_well_formed(),
        nesting(events, st.list_stack.len() > 0) == Some(Seq::<Container>::empty()),
    ensures
        state_after(o, st, events).padding.unaligned() == st.padding.unaligned(),
        state_after(o, st, events).list_stack.len() == st.list_stack.len(),
{
    lemma_nesting(o, st, events);
}

/// Where no element has begun, elements that begin and end in turn leave neither padding nor lists
/// behind.
pub proof fn law_balanced_events_leave_nothing_behind(
    o: OptionsView,
    st: StateView,
    events: Seq<Event<'_>>,
)
    requires
        st.padding == PaddingView::empty(),
        st.list_stack.len() == 0,
        nesting(events, false) == Some(Seq::<Container>::empty()),
    ensures
        state_after(o, st, events).padding == st.padding,
        state_after(o, st, events).list_stack == st.list_stack,
{
    lemma_nesting(o, st, events);
    let p = state_after(o, st, events).padding;
    lemma_unaligned(p);
    if p.alignments.len() > 0 {
        assert(p.alignments[0] < p.stack.len());
    }
    assert(p =~= st.padding);
    assert(state_after(o, st, events).list_stack =~= st.list_stack);
}

/// An element around others: where it begins, what is in it, and where it ends.
pub open spec fn enclosed<'a>(tag: Tag<'a>, inner: Seq<Event<'a>>) -> Seq<Event<'a>> {
    seq![Event::Start(tag)] + inner + seq![Event::End(tag)]
}

proof fn lemma_enclosed<'a>(o: OptionsView, st: StateView, tag: Tag<'a>, inner: Seq<Event<'a>>)
    requires
        st.padding.is_well_formed(),
        event_state(o, st, Event::Start(tag)).padding.is_well_formed(),
        nesting(inner, event_state(o, st, Event::Start(tag)).list_stack.len() > 0) == Some(
            Seq::<Container>::empty(),
        ),
    ensures
        ({
            let later = state_after(o, event_state(o, st, Event::Start(tag)), inner);
            &&& state_after(o, st, enclosed(tag, inner)) == event_state(o, later, Event::End(tag))
            &&& later.padding.unaligned() == event_state(
                o,
                st,
                Event::Start(tag),
            ).padding.unaligned()
        }),
{
    let first = Event::Start(tag);
    law_halting_changes_nothing(o, st, seq![first], inner);
    assert(seq![first].drop_last() =~= seq![]);
    assert(enclosed(tag, inner).drop_last() =~= seq![first] + inner);
    law_balanced_events_keep_the_padding(o, event_state(o, st, first), inner);
}

/// An item takes the padding off that it put on, with everything that was added inside it.
pub proof fn law_items_take_their_padding_off(
    o: OptionsView,
    st: StateView,
    inner: Seq<Event<'_>>,
)
    requires
        st.padding.is_well_formed(),
        st.list_stack.len() > 0,
        nesting(inner, true) == Some(Seq::<Container>::empty()),
    ensures
        state_after(o, st, enclosed(Tag::Item, inner)).padding == st.padding,
{
    let added = item_padding(st.list_stack.last());
    reveal_strlit("  ");
    assert("  "@ =~= repeated(' ', 2));
    lemma_blanks_are_not_indented(added.len());
    lemma_fits_push(st.padding, added, st.padding, seq![], Container::Item);
    lemma_enclosed(o, st, Tag::Item, inner);
    law_padding_is_taken_off_as_put_on(st.padding, added);
}

/// A block quote takes the padding off that it put on, with everything that was added inside it,
/// and leaves its indentation in what it stands in if that is narrower.
pub proof fn law_block_quotes_leave_their_indentation(
    o: OptionsView,
    st: StateView,
    inner: Seq<Event<'_>>,
)
    requires
        st.padding.is_well_formed(),
        nesting(inner, st.list_stack.len() > 0) == Some(Seq::<Container>::empty()),
    ensures
        state_after(o, st, enclosed(Tag::BlockQuote, inner)).padding == st.padding.align_to(
            o.blockquote,
        ),
{
    lemma_fits_push(st.padding, o.blockquote, st.padding, seq![], Container::BlockQuote);
    lemma_enclosed(o, st, Tag::BlockQuote, inner);
    law_padding_is_taken_off_as_put_on(st.padding, o.blockquote);
}

/// How many more lists are open behind `e` than before it.
pub open spec fn list_change(e: Event<'_>) -> int {
    match e {
        Event::Start(Tag::List(_)) => 1,
        Event::End(Tag::List(_)) => -1,
        _ => 0,
    }
}

/// How many more lists begin than end in `events`.
pub open spec fn open_lists(events: Seq<Event<'_>>) -> int
    decreases events.len(),
{
    if events.len() == 0 {
        0
    } else {
        open_lists(events.drop_last()) + list_change(events.last())
    }
}

/// The lists are counted: as long as no list ends that has not begun, one more or one less is known
/// for each that begins or ends.
pub proof fn law_lists_are_counted(o: OptionsView, st: StateView, events: Seq<Event<'_>>)
    requires
        forall|i: int|
            0 <= i <= events.len() ==> st.list_stack.len() + #[trigger] open_lists(events.take(i))
                >= 0,
    ensures
        state_after(o, st, events).list_stack.len() == st.list_stack.len() + open_lists(events),
    decreases events.len(),
{
    if events.len() > 0 {
        let before = events.drop_last();
        assert forall|i: int| 0 <= i <= before.len() implies st.list_stack.len()
            + #[trigger] open_lists(before.take(i)) >= 0 by {
            assert(before.take(i) =~= events.take(i));
        }
        law_lists_are_counted(o, st, before);
        assert(events.take(events.len() as int) =~= events);
    }
}

proof fn lemma_outer_lists_step(o: OptionsView, st: StateView, e: Event<'_>, n: int)
    requires
        0 <= n < st.list_stack.len(),
    ensures
        event_state(o, st, e).list_stack.len() == st.list_stack.len() + list_change(e),
        event_state(o, st, e).list_stack.take(n) == st.list_stack.take(n),
{
    assert(event_state(o, st, e).list_stack.take(n) =~= st.list_stack.take(n));
}

proof fn lemma_outer_lists_stay(o: OptionsView, st: StateView, events: Seq<Event<'_>>)
    requires
        events.len() > 0,
        events[0] matches Event::Start(Tag::List(_)),
        forall|i: int| 0 < i <= events.len() ==> #[trigger] open_lists(events.take(i)) > 0,
    ensures
        state_after(o, st, events).list_stack.len() == st.list_stack.len() + open_lists(events),
        state_after(o, st, events).list_stack.take(st.list_stack.len() as int) == st.list_stack,
    decreases events.len(),
{
    let before = events.drop_last();
    let n = st.list_stack.len() as int;
    assert(events.take(events.len() as int) =~= events);
    if events.len() == 1 {
        assert(open_lists(before) == 0);
        assert(state_after(o, st, before) == st);
        assert(state_after(o, st, events).list_stack.take(n) =~= st.list_stack);
    } else {
        assert forall|i: int| 0 < i <= before.len() implies #[trigger] open_lists(before.take(i))
            > 0 by {
            assert(before.take(i) =~= events.take(i));
        }
        lemma_outer_lists_stay(o, st, before);
        let lists = state_after(o, st, before).list_stack;
        assert(before.take(before.len() as int) =~= before);
        lemma_outer_lists_step(o, state_after(o, st, before), events.last(), n);
    }
}

/// A list, from its beginning to its end, leaves the lists around it as they were.
pub proof fn law_lists_around_a_list_stay(o: OptionsView, st: StateView, events: Seq<Event<'_>>)
    requires
        events.len() > 0,
        events[0] matches Event::Start(Tag::List(_)),
        forall|i: int| 0 < i < events.len() ==> #[trigger] open_lists(events.take(i)) > 0,
        open_lists(events) == 0,
    ensures
        state_after(o, st, events).list_stack == st.list_stack,
{
    let before = events.drop_last();
    assert(events.take(events.len() - 1) =~= before);
    if events.len() == 1 {
        assert(open_lists(before) == 0);
    } else {
        assert forall|i: int| 0 < i <= before.len() implies #[trigger] open_lists(before.take(i))
            > 0 by {
            assert(before.take(i) =~= events.take(i));
        }
        lemma_outer_lists_stay(o, st, before);
        assert(before.take(before.len() as int) =~= before);
        let lists = state_after(o, st, before).list_stack;
        let n = st.list_stack.len() as int;
        assert(open_lists(before) == 1);
        assert(lists.drop_last() =~= lists.take(n));
    }
}

} // verus!
