//! What holds of shortcuts, their labels and their definitions.
use vstd::prelude::*;

use crate::event::{Event, LinkType, Tag};
use crate::laws::{law_halting_changes_nothing, law_text_on_one_line_is_kept, plain_text};
use crate::laws::nesting::changes_padding;
use crate::model::{
    bounds_shortcut, code_mark_len, distinct, event_content, event_state, event_text, fence,
    heading_attributes, html_separator, label_text, line_breaks, link_closing, opening, reflowed,
    rendered, state_after, StateView,
};
use crate::options::OptionsView;
use crate::padding::PaddingView;
use crate::text::{lemma_contained_in_sum, repeated};

verus! {

/// Shortcuts that were seen are never forgotten before they are defined.
pub proof fn law_shortcuts_are_kept(o: OptionsView, st: StateView, events: Seq<Event<'_>>)
    ensures
        st.shortcuts.is_prefix_of(state_after(o, st, events).shortcuts),
    decreases events.len(),
{
    if events.len() > 0 {
        law_shortcuts_are_kept(o, st, events.drop_last());
    }
}

/// What `events` in a shortcut add to its label.
pub open spec fn label(o: OptionsView, st: StateView, events: Seq<Event<'_>>) -> Seq<char>
    decreases events.len(),
{
    if events.len() == 0 {
        seq![]
    } else {
        label(o, st, events.drop_last()) + label_text(
            o,
            state_after(o, st, events.drop_last()),
            events.last(),
        )
    }
}

proof fn lemma_shortcut_text(o: OptionsView, st: StateView, inner: Seq<Event<'_>>)
    requires
        st.current_shortcut_text is Some,
        forall|i: int| 0 <= i < inner.len() ==> !bounds_shortcut(#[trigger] inner[i]),
    ensures
        state_after(o, st, inner).current_shortcut_text == Some(
            st.current_shortcut_text->0 + label(o, st, inner),
        ),
        state_after(o, st, inner).shortcuts == st.shortcuts,
    decreases inner.len(),
{
    if inner.len() == 0 {
        assert(st.current_shortcut_text->0 + label(o, st, inner) =~= st.current_shortcut_text->0);
    } else {
        let before = inner.drop_last();
        lemma_shortcut_text(o, st, before);
        assert(!bounds_shortcut(inner[inner.len() - 1]));
        assert(state_after(o, st, inner).current_shortcut_text->0
            =~= st.current_shortcut_text->0 + label(o, st, inner));
    }
}

/// A shortcut is kept for its definition with the label that all between its beginning and its end
/// adds up to, its destination and its title.
pub proof fn law_shortcuts_are_seen_whole(
    o: OptionsView,
    st: StateView,
    uri: &str,
    title: &str,
    inner: Seq<Event<'_>>,
)
    requires
        forall|i: int| 0 <= i < inner.len() ==> !bounds_shortcut(#[trigger] inner[i]),
    ensures
        state_after(
            o,
            st,
            seq![Event::Start(Tag::Link(LinkType::Shortcut, uri, title))] + inner + seq![
                Event::End(Tag::Link(LinkType::Shortcut, uri, title)),
            ],
        ).shortcuts == st.shortcuts.push(
            (
                label(
                    o,
                    event_state(o, st, Event::Start(Tag::Link(LinkType::Shortcut, uri, title))),
                    inner,
                ),
                uri@,
                title@,
            ),
        ),
{
    let first = Event::Start(Tag::Link(LinkType::Shortcut, uri, title));
    let last = Event::End(Tag::Link(LinkType::Shortcut, uri, title));
    let opened = event_state(o, st, first);
    law_halting_changes_nothing(o, st, seq![first], inner);
    assert(seq![first].drop_last() =~= seq![]);
    assert(state_after(o, st, seq![first]) == opened);
    lemma_shortcut_text(o, opened, inner);
    assert((seq![first] + inner + seq![last]).drop_last() =~= seq![first] + inner);
    assert(opened.current_shortcut_text->0 + label(o, opened, inner) =~= label(o, opened, inner));
}

/// With the default options, the label of a shortcut is the text that is written between its
/// brackets, where there is no padding.
pub proof fn law_labels_are_what_is_written(o: OptionsView, st: StateView, inner: Seq<Event<'_>>)
    requires
        o.is_standard(),
        st.padding == PaddingView::empty(),
        forall|i: int| 0 <= i < inner.len() ==> !changes_padding(#[trigger] inner[i]),
    ensures
        label(o, st, inner) == rendered(o, st, inner),
        state_after(o, st, inner).padding == PaddingView::empty(),
    decreases inner.len(),
{
    if inner.len() > 0 {
        law_labels_are_what_is_written(o, st, inner.drop_last());
        assert(!changes_padding(inner[inner.len() - 1]));
    }
}

proof fn lemma_shown_on_one_line(
    head: Seq<char>,
    t: Seq<char>,
    tail: Seq<char>,
    st: StateView,
    bare: StateView,
)
    requires
        !(head + reflowed(t, st.line_start()) + tail).contains('\n'),
    ensures
        reflowed(t, bare.line_start()) == reflowed(t, st.line_start()),
{
    lemma_contained_in_sum(head + reflowed(t, st.line_start()), tail, '\n');
    lemma_contained_in_sum(head, reflowed(t, st.line_start()), '\n');
    law_text_on_one_line_is_kept(t, st.line_start());
    law_text_on_one_line_is_kept(t, bare.line_start());
}

proof fn lemma_label_on_one_line(o: OptionsView, st: StateView, e: Event<'_>)
    requires
        o.is_standard(),
        !(e matches Event::Start(Tag::List(_))),
        !event_text(o, st, e).contains('\n'),
    ensures
        label_text(o, st, e) == event_text(o, st, e),
{
    let bare = StateView { padding: PaddingView::empty(), ..st };
    let content = event_content(o, st, e);
    lemma_contained_in_sum(html_separator(st, e), content, '\n');
    assert(st.line_break()[0] == '\n');
    assert(html_separator(st, e) =~= html_separator(bare, e));
    if st.newlines_before_start > 0 {
        lemma_contained_in_sum(
            line_breaks(st.line_start(), (st.newlines_before_start - 1) as nat),
            st.line_break(),
            '\n',
        );
        assert(st.due().contains('\n'));
    }
    match e {
        Event::Start(tag) => {
            lemma_contained_in_sum(st.due(), opening(o, st, tag), '\n');
            if let Tag::CodeBlock(kind) = tag {
                let open = opening(o, st, tag);
                assert(open[open.len() - st.line_break().len()] == '\n');
            }
            if let Tag::FootnoteDefinition(name) = tag {
                lemma_shown_on_one_line("[^"@, name@, "]: "@, st, bare);
            }
        },
        Event::End(tag) => {
            if let Tag::CodeBlock(kind) = tag {
                lemma_contained_in_sum(st.line_break(), fence(o), '\n');
            }
            if tag is TableHead {
                assert(content[1] == '\n');
            }
            if let Tag::Heading(_, id, classes) = tag {
                let raw = heading_attributes(id, classes.deep_view());
                law_text_on_one_line_is_kept(raw, st.line_start());
                law_text_on_one_line_is_kept(raw, bare.line_start());
            }
            if let Tag::Link(_, uri, title) = tag {
                let raw = link_closing(uri@, title@, LinkType::Inline);
                law_text_on_one_line_is_kept(raw, st.line_start());
                law_text_on_one_line_is_kept(raw, bare.line_start());
            }
            if let Tag::Image(_, uri, title) = tag {
                let raw = link_closing(uri@, title@, LinkType::Inline);
                law_text_on_one_line_is_kept(raw, st.line_start());
                law_text_on_one_line_is_kept(raw, bare.line_start());
            }
        },
        Event::Text(t) => {
            let shown = st.escaped(o, t@);
            lemma_contained_in_sum(st.due(), reflowed(shown, st.line_start()), '\n');
            law_text_on_one_line_is_kept(shown, st.line_start());
            law_text_on_one_line_is_kept(shown, bare.line_start());
        },
        Event::Html(t) => {
            lemma_contained_in_sum(st.due(), reflowed(t@, st.line_start()), '\n');
            law_text_on_one_line_is_kept(t@, st.line_start());
            law_text_on_one_line_is_kept(t@, bare.line_start());
        },
        Event::Code(t) => {
            let token = o.code_block_token;
            let mark = repeated(token, code_mark_len(o, t@));
            if t@.contains(token) {
                lemma_shown_on_one_line(mark.push(' '), t@, seq![' '] + mark, st, bare);
            } else {
                lemma_shown_on_one_line(seq![token], t@, seq![token], st, bare);
            }
        },
        Event::FootnoteReference(name) => {
            lemma_shown_on_one_line("[^"@, name@, "]"@, st, bare);
        },
        Event::HardBreak => {
            reveal_strlit("  \n");
            assert(content[2] == '\n');
        },
        Event::Rule => {
            lemma_contained_in_sum(st.due(), "---"@, '\n');
        },
        _ => {},
    }
    assert(label_text(o, st, e) =~= event_text(o, st, e));
}

/// With the default options, the label of a shortcut is the text that is written between its
/// brackets, where that is on one line.
pub proof fn law_labels_on_one_line_are_what_is_written(
    o: OptionsView,
    st: StateView,
    inner: Seq<Event<'_>>,
)
    requires
        o.is_standard(),
        !rendered(o, st, inner).contains('\n'),
        forall|i: int|
            0 <= i < inner.len() ==> !(#[trigger] inner[i] matches Event::Start(Tag::List(_))),
    ensures
        label(o, st, inner) == rendered(o, st, inner),
    decreases inner.len(),
{
    if inner.len() > 0 {
        let before = inner.drop_last();
        let later = state_after(o, st, before);
        lemma_contained_in_sum(
            rendered(o, st, before),
            event_text(o, later, inner.last()),
            '\n',
        );
        law_labels_on_one_line_are_what_is_written(o, st, before);
        assert(!(inner[inner.len() - 1] matches Event::Start(Tag::List(_))));
        lemma_label_on_one_line(o, later, inner.last());
    }
}

/// With other options, the label of a shortcut is the text and the code between its brackets, with
/// backticks around the code.
pub proof fn law_labels_are_text_and_code(o: OptionsView, st: StateView, inner: Seq<Event<'_>>)
    requires
        !o.is_standard(),
    ensures
        label(o, st, inner) == plain_text(inner, "`"@),
    decreases inner.len(),
{
    if inner.len() > 0 {
        law_labels_are_text_and_code(o, st, inner.drop_last());
    }
}

/// Whether `a` occurs in `all` before `b` does.
pub open spec fn comes_first<A>(all: Seq<A>, a: A, b: A) -> bool {
    exists|k: int| 0 <= k < all.len() && #[trigger] all[k] == a && !all.take(k + 1).contains(b)
}

/// Each shortcut is defined once, in the order in which the shortcuts were seen first.
pub proof fn law_shortcuts_are_defined_once(all: Seq<(Seq<char>, Seq<char>, Seq<char>)>)
    ensures
        distinct(all).no_duplicates(),
        forall|s: (Seq<char>, Seq<char>, Seq<char>)| distinct(all).contains(s) <==> all.contains(s),
        forall|i: int, j: int|
            0 <= i < j < distinct(all).len() ==> #[trigger] comes_first(
                all,
                distinct(all)[i],
                distinct(all)[j],
            ),
    decreases all.len(),
{
    if all.len() > 0 {
        let before = all.drop_last();
        law_shortcuts_are_defined_once(before);
        assert forall|s: (Seq<char>, Seq<char>, Seq<char>)|
            distinct(all).contains(s) <==> all.contains(s) by {
            if all.contains(s) && s != all.last() {
                let i = choose|i: int| 0 <= i < all.len() && all[i] == s;
                assert(before[i] == s);
                assert(before.contains(s));
                let j = choose|j: int| 0 <= j < distinct(before).len() && distinct(before)[j] == s;
                assert(distinct(all)[j] == s);
            }
            if s == all.last() {
                assert(all[all.len() - 1] == s);
                if !before.contains(s) {
                    assert(distinct(all)[distinct(all).len() - 1] == s);
                }
            }
            if distinct(all).contains(s) && s != all.last() {
                let j = choose|j: int| 0 <= j < distinct(all).len() && distinct(all)[j] == s;
                assert(distinct(before)[j] == s);
                assert(distinct(before).contains(s) && before.contains(s));
                let i = choose|i: int| 0 <= i < before.len() && before[i] == s;
                assert(all[i] == s);
            }
        }
        assert forall|i: int, j: int|
            0 <= i < j < distinct(all).len() implies #[trigger] comes_first(
            all,
            distinct(all)[i],
            distinct(all)[j],
        ) by {
            let a = distinct(all)[i];
            let b = distinct(all)[j];
            assert(a == distinct(before)[i]);
            let k = if j < distinct(before).len() {
                assert(comes_first(before, a, distinct(before)[j]));
                choose|k: int|
                    0 <= k < before.len() && #[trigger] before[k] == a && !before.take(
                        k + 1,
                    ).contains(b)
            } else {
                assert(distinct(before).contains(a) && before.contains(a));
                choose|k: int| 0 <= k < before.len() && before[k] == a
            };
            assert(all.take(k + 1) =~= before.take(k + 1));
            let head = before.take(k + 1);
            if head.contains(b) {
                let m = choose|m: int| 0 <= m < head.len() && head[m] == b;
                assert(before[m] == b);
            }
            assert(all[k] == a);
        }
    }
}

} // verus!
