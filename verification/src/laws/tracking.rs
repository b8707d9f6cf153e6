//! What is known behind an event, and behind all of them.
use vstd::prelude::*;

use crate::event::{Event, LinkType, Tag};
use crate::laws::inlines::{lemma_link_closing, target};
use crate::laws::terms::margin;
use crate::model::{
    are_supported, definition, definitions, distinct, document, event_state, event_text, finalized,
    is_supported, rendered, state_after, StateView,
};
use crate::options::{Options, OptionsView};
use crate::padding::PaddingView;
use crate::render::resumed;
use crate::state::State;

verus! {

/// The lists that are open are known with what comes next in them: a list that begins joins them, a
/// list that ends leaves them, and an item counts the innermost one up if items are counted.
pub proof fn law_lists_are_tracked(o: OptionsView, st: StateView, e: Event<'_>)
    requires
        st.list_stack.len() > 0 && st.list_stack.last() == Some(u64::MAX) ==> !(e matches
            Event::Start(Tag::Item) && o.increment_ordered_list_bullets),
    ensures
        ({
            let lists = st.list_stack;
            let later = event_state(o, st, e).list_stack;
            match e {
                Event::Start(Tag::List(first)) => later == lists.push(first),
                Event::End(Tag::List(_)) => {
                    &&& lists.len() > 0 ==> later == lists.drop_last()
                    &&& lists.len() == 0 ==> later.len() == 0
                },
                Event::Start(Tag::Item) => {
                    let counts = o.increment_ordered_list_bullets && lists.len() > 0
                        && lists.last() is Some;
                    &&& !counts ==> later == lists
                    &&& counts ==> later.len() == lists.len() && later.drop_last()
                        == lists.drop_last() && later.last() is Some && later.last()->0
                        == lists.last()->0 + 1
                },
                _ => later == lists,
            }
        }),
{
    let lists = st.list_stack;
    let later = event_state(o, st, e).list_stack;
    match e {
        Event::End(Tag::List(_)) => {
            if lists.len() == 1 {
                assert(later =~= lists.drop_last());
            }
        },
        Event::Start(Tag::Item) => {
            if o.increment_ordered_list_bullets && lists.len() > 0 && lists.last() is Some {
                assert(later.drop_last() =~= lists.drop_last());
            }
        },
        _ => {},
    }
}

/// How many newlines the end of an element asks for.
pub open spec fn asked_for(o: OptionsView, st: StateView, tag: Tag<'_>) -> nat {
    match tag {
        Tag::Paragraph => o.newlines_after_paragraph,
        Tag::Heading(_, _, _) => o.newlines_after_headline,
        Tag::BlockQuote => o.newlines_after_blockquote,
        Tag::CodeBlock(_) => o.newlines_after_codeblock,
        Tag::Table(_) => o.newlines_after_table,
        Tag::TableHead => o.newlines_after_rest,
        Tag::TableRow => o.newlines_after_rest,
        Tag::Item => o.newlines_after_rest,
        Tag::List(_) => if st.list_stack.len() <= 1 {
            o.newlines_after_list
        } else {
            0
        },
        _ => 0,
    }
}

/// Newlines are due from the end of an element that asks for them, as many as the one that asked
/// for most, until something begins before which they are written. A list asks for them only if it
/// is the outermost one.
pub proof fn law_newlines_are_tracked(o: OptionsView, st: StateView, e: Event<'_>)
    ensures
        event_state(o, st, e).newlines_before_start == (match e {
            Event::Start(_) => 0,
            Event::Text(_) => 0,
            Event::Html(_) => 0,
            Event::Rule => o.newlines_after_rule,
            Event::End(tag) => if asked_for(o, st, tag) > st.newlines_before_start {
                asked_for(o, st, tag)
            } else {
                st.newlines_before_start
            },
            _ => st.newlines_before_start,
        }),
{
}

/// The text of a cell is kept from its beginning to its end, with tokens around the code in it, and
/// is a header of the table from then on. An empty cell leaves two spaces.
pub proof fn law_headers_are_tracked(o: OptionsView, st: StateView, e: Event<'_>)
    ensures
        event_state(o, st, e).text_for_header == (match e {
            Event::Start(Tag::TableCell) => Some(Seq::<char>::empty()),
            Event::End(Tag::TableCell) => None,
            Event::Text(t) => match st.text_for_header {
                Some(text) => Some(text + t@),
                None => None,
            },
            Event::Code(t) => match st.text_for_header {
                Some(text) => Some(
                    text + (seq![o.code_block_token] + t@ + seq![o.code_block_token]),
                ),
                None => None,
            },
            _ => st.text_for_header,
        }),
        event_state(o, st, e).table_headers == (match e {
            Event::End(Tag::TableCell) => st.table_headers.push(
                match st.text_for_header {
                    Some(text) => if text.len() > 0 {
                        text
                    } else {
                        seq![' ', ' ']
                    },
                    None => seq![' ', ' '],
                },
            ),
            Event::End(Tag::Table(_)) => seq![],
            _ => st.table_headers,
        }),
        event_state(o, st, e).table_alignments == (match e {
            Event::Start(Tag::Table(columns)) => columns@,
            Event::End(Tag::Table(_)) => seq![],
            _ => st.table_alignments,
        }),
{
    reveal_strlit("  ");
    assert("  "@ =~= seq![' ', ' ']);
}

/// A block quote puts its marker on the padding and an item in a list something else, and the end
/// of either takes off what was added for alignment, and one padding more. Nothing else changes the
/// padding.
pub proof fn law_padding_is_tracked(o: OptionsView, st: StateView, e: Event<'_>)
    ensures
        ({
            let later = event_state(o, st, e).padding;
            match e {
                Event::Start(Tag::BlockQuote) => {
                    &&& later.stack == st.padding.stack.push(o.blockquote)
                    &&& later.alignments == st.padding.alignments
                },
                Event::Start(Tag::Item) => {
                    &&& st.list_stack.len() == 0 ==> later == st.padding
                    &&& st.list_stack.len() > 0 ==> {
                        &&& later.stack.len() == st.padding.stack.len() + 1
                        &&& later.stack.drop_last() == st.padding.stack
                        &&& later.alignments == st.padding.alignments
                    }
                },
                Event::End(Tag::BlockQuote) => later == st.padding.unaligned().pop(),
                Event::End(Tag::Item) => later == st.padding.unaligned().pop(),
                _ => later == st.padding,
            }
        }),
{
    let later = event_state(o, st, e).padding;
    if let Event::Start(Tag::Item) = e {
        if st.list_stack.len() > 0 {
            assert(later.stack.drop_last() =~= st.padding.stack);
        }
    }
}

/// A shortcut is known from its end on, with its destination, its title and the label that was
/// gathered since it began. With the default options, each event in it adds to its label the text
/// that it writes where there is no padding. With other options, text adds itself, and code adds
/// itself between backticks.
pub proof fn law_shortcuts_are_tracked(o: OptionsView, st: StateView, e: Event<'_>)
    ensures
        ({
            let later = event_state(o, st, e);
            let none = PaddingView { stack: seq![], alignments: seq![] };
            let bare = StateView { padding: none, ..st };
            match e {
                Event::Start(Tag::Link(LinkType::Shortcut, _, _)) => {
                    &&& later.current_shortcut_text == Some(Seq::<char>::empty())
                    &&& later.shortcuts == st.shortcuts
                },
                Event::End(Tag::Link(LinkType::Shortcut, uri, title)) => {
                    &&& later.current_shortcut_text is None
                    &&& st.current_shortcut_text is None ==> later.shortcuts == st.shortcuts
                    &&& st.current_shortcut_text is Some ==> later.shortcuts == st.shortcuts.push(
                        (st.current_shortcut_text->0, uri@, title@),
                    )
                },
                _ => {
                    &&& later.shortcuts == st.shortcuts
                    &&& st.current_shortcut_text is None ==> later.current_shortcut_text is None
                    &&& st.current_shortcut_text is Some ==> later.current_shortcut_text == Some(
                        st.current_shortcut_text->0 + (if o.is_standard() {
                            event_text(o, bare, e)
                        } else {
                            match e {
                                Event::Text(t) => t@,
                                Event::Code(t) => seq!['`'] + t@ + seq!['`'],
                                _ => seq![],
                            }
                        }),
                    )
                },
            }
        }),
{
    reveal_strlit("`");
    assert("`"@ =~= seq!['`']);
}

/// Before the first event nothing is due, nothing is open and nothing is known. Rendering goes on
/// from the state that it is given, and from this one if it is given none.
pub proof fn law_rendering_begins_with_nothing(state: State<'_>)
    ensures
        ({
            let st = StateView::initial();
            &&& st.newlines_before_start == 0
            &&& st.list_stack.len() == 0
            &&& st.padding.stack.len() == 0
            &&& st.padding.alignments.len() == 0
            &&& st.table_alignments.len() == 0
            &&& st.table_headers.len() == 0
            &&& st.text_for_header is None
            &&& !st.is_in_code_block
            &&& !st.last_was_html
            &&& !st.last_was_text_without_trailing_newline
            &&& st.current_shortcut_text is None
            &&& st.shortcuts.len() == 0
            &&& resumed(None) == st
            &&& resumed(Some(state)) == state@
        }),
{
}

/// Events are rendered one after the other, each in the state that those before it left: nothing is
/// written for no events, and one more event adds its text and changes the state. They can be
/// rendered if each of them can, and each can but for an item whose number leaves no room for the
/// next one.
pub proof fn law_events_are_rendered_in_turn(
    o: OptionsView,
    st: StateView,
    events: Seq<Event<'_>>,
    e: Event<'_>,
)
    ensures
        rendered(o, st, seq![]) == Seq::<char>::empty(),
        state_after(o, st, seq![]) == st,
        are_supported(o, st, seq![]),
        rendered(o, st, events.push(e)) == rendered(o, st, events) + event_text(
            o,
            state_after(o, st, events),
            e,
        ),
        state_after(o, st, events.push(e)) == event_state(o, state_after(o, st, events), e),
        are_supported(o, st, events.push(e)) <==> are_supported(o, st, events) && is_supported(
            o,
            state_after(o, st, events),
            e,
        ),
        is_supported(o, st, e) <==> !(e matches Event::Start(Tag::Item)
            && o.increment_ordered_list_bullets && st.list_stack.len() > 0 && st.list_stack.last()
            == Some(u64::MAX)),
{
    assert(events.push(e).drop_last() =~= events);
}

/// The definition of a shortcut stands on a line of its own: its label in square brackets, a colon,
/// and where it leads, with its title whatever that is, if it has one.
pub proof fn law_definitions_say_everything(label: Seq<char>, uri: Seq<char>, title: Seq<char>)
    ensures
        definition((label, uri, title)) == seq!['\n', '['] + label + seq![']', ':', ' '] + target(
            uri,
            title,
        ),
{
    reveal_strlit("\n[");
    lemma_link_closing(uri, title, LinkType::Shortcut);
    assert(definition((label, uri, title)) =~= seq!['\n', '['] + label + seq![']', ':', ' ']
        + target(uri, title));
}

/// A document is the text of its events and, if there are shortcuts in it, an empty line and their
/// definitions, each once, in the order in which they were seen first. Its state has no shortcuts
/// left, and is otherwise the one that its events left.
pub proof fn law_documents_end_with_their_definitions(o: OptionsView, events: Seq<Event<'_>>)
    ensures
        ({
            let last = state_after(o, StateView::initial(), events);
            let text = rendered(o, StateView::initial(), events);
            &&& last.shortcuts.len() == 0 ==> document(o, events) == text
            &&& last.shortcuts.len() > 0 ==> document(o, events) == text + seq!['\n'] + distinct(
                last.shortcuts,
            ).map_values(|s: (Seq<char>, Seq<char>, Seq<char>)| definition(s)).flatten()
        }),
{
    reveal_strlit("\n");
    let last = state_after(o, StateView::initial(), events);
    let text = rendered(o, StateView::initial(), events);
    let each = distinct(last.shortcuts).map_values(|s| definition(s));
    assert(each =~= distinct(last.shortcuts).map_values(
        |s: (Seq<char>, Seq<char>, Seq<char>)| definition(s),
    ));
    if last.shortcuts.len() == 0 {
        assert(document(o, events) =~= text);
    } else {
        assert(document(o, events) =~= text + seq!['\n'] + each.flatten());
    }
}

/// What finalizing writes is what a document has behind the text of its events, and all that it
/// changes is that there are no shortcuts any more.
pub proof fn law_finalizing_defines_the_shortcuts(st: StateView)
    ensures
        st.shortcuts.len() == 0 ==> definitions(st.shortcuts) == Seq::<char>::empty(),
        st.shortcuts.len() > 0 ==> definitions(st.shortcuts) == seq!['\n'] + distinct(
            st.shortcuts,
        ).map_values(|s: (Seq<char>, Seq<char>, Seq<char>)| definition(s)).flatten(),
        finalized(st).shortcuts.len() == 0,
        finalized(st) == (StateView { shortcuts: finalized(st).shortcuts, ..st }),
{
    reveal_strlit("\n");
    let each = distinct(st.shortcuts).map_values(|s| definition(s));
    assert(each =~= distinct(st.shortcuts).map_values(
        |s: (Seq<char>, Seq<char>, Seq<char>)| definition(s),
    ));
    if st.shortcuts.len() > 0 {
        assert(definitions(st.shortcuts) =~= seq!['\n'] + each.flatten());
    }
}

/// The default options, value by value.
pub proof fn law_default_options_are_known(o: OptionsView)
    ensures
        o.is_standard() <==> {
            &&& o.newlines_after_headline == 2
            &&& o.newlines_after_paragraph == 2
            &&& o.newlines_after_codeblock == 2
            &&& o.newlines_after_table == 2
            &&& o.newlines_after_rule == 2
            &&& o.newlines_after_list == 2
            &&& o.newlines_after_blockquote == 2
            &&& o.newlines_after_rest == 1
            &&& o.code_block_token_count == 4
            &&& o.code_block_token == '`'
            &&& o.list_token == '*'
            &&& o.ordered_list_token == '.'
            &&& !o.increment_ordered_list_bullets
            &&& o.emphasis_token == '*'
            &&& o.strong_token == "**"@
            &&& o.blockquote == " > "@
        },
        OptionsView::standard().is_standard(),
{
}

/// Options are known by what their fields hold.
pub proof fn law_options_are_what_they_hold(options: Options<'_>)
    ensures
        ({
            let o = options@;
            &&& o.newlines_after_headline == options.newlines_after_headline
            &&& o.newlines_after_paragraph == options.newlines_after_paragraph
            &&& o.newlines_after_codeblock == options.newlines_after_codeblock
            &&& o.newlines_after_table == options.newlines_after_table
            &&& o.newlines_after_rule == options.newlines_after_rule
            &&& o.newlines_after_list == options.newlines_after_list
            &&& o.newlines_after_blockquote == options.newlines_after_blockquote
            &&& o.newlines_after_rest == options.newlines_after_rest
            &&& o.code_block_token_count == options.code_block_token_count
            &&& o.code_block_token == options.code_block_token
            &&& o.list_token == options.list_token
            &&& o.ordered_list_token == options.ordered_list_token
            &&& o.increment_ordered_list_bullets == options.increment_ordered_list_bullets
            &&& o.emphasis_token == options.emphasis_token
            &&& o.strong_token == options.strong_token@
            &&& o.blockquote == options.blockquote@
        }),
{
}

/// A state is known by what its fields hold.
pub proof fn law_states_are_what_they_hold(state: State<'_>)
    ensures
        ({
            let st = state@;
            &&& st.newlines_before_start == state.newlines_before_start
            &&& st.list_stack == state.list_stack@
            &&& st.padding == state.padding@
            &&& st.table_alignments == state.table_alignments@
            &&& st.table_headers == state.table_headers.deep_view()
            &&& st.text_for_header == state.text_for_header.deep_view()
            &&& st.is_in_code_block == state.is_in_code_block
            &&& st.last_was_html == state.last_was_html
            &&& st.last_was_text_without_trailing_newline
                == state.last_was_text_without_trailing_newline
            &&& st.current_shortcut_text == state.current_shortcut_text.deep_view()
            &&& st.shortcuts == state.shortcuts.deep_view()
            &&& st.line_start() == margin(st)
        }),
{
}

} // verus!
