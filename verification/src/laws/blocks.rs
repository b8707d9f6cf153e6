//! What is written of headings, block quotes, code blocks, lists, items and footnotes.
use vstd::prelude::*;

use crate::event::{CodeBlockKind, Event, HeadingLevel, Tag};
use crate::laws::terms::{
    breaks, lemma_breaks, lemma_padded, line_end, margin, padded, pending, run,
};
use crate::model::{
    class_list, event_state, event_text, heading_attributes, item_padding, StateView,
};
use crate::options::OptionsView;
use crate::text::{digit, numeral};

verus! {

/// HTML goes on with text, with more HTML, with a soft break and with the end of an element.
/// Everything else behind it is written as it would be written behind anything but HTML, on a new
/// line.
pub proof fn law_a_new_line_is_begun_behind_html(o: OptionsView, st: StateView, e: Event<'_>)
    ensures
        ({
            let quiet = StateView { last_was_html: false, ..st };
            let begun = st.last_was_html && (e is Start || e is Code || e is FootnoteReference
                || e is HardBreak || e is Rule || e is TaskListMarker);
            event_text(o, st, e) == (if begun {
                line_end(st)
            } else {
                seq![]
            }) + event_text(o, quiet, e)
        }),
{
    let quiet = StateView { last_was_html: false, ..st };
    assert(seq![] + event_text(o, quiet, e) =~= event_text(o, quiet, e));
    assert(seq![] + event_text(o, st, e) =~= event_text(o, st, e));
}

/// A heading begins with as many number signs as its level says, and a space. What else it has does
/// not matter there.
pub proof fn law_headings_begin_with_their_level(
    o: OptionsView,
    st: StateView,
    level: HeadingLevel,
    id: Option<&str>,
    classes: Vec<&str>,
)
    requires
        !st.last_was_html,
    ensures
        event_text(o, st, Event::Start(Tag::Heading(level, id, classes))) == pending(st) + run(
            '#',
            match level {
                HeadingLevel::H1 => 1,
                HeadingLevel::H2 => 2,
                HeadingLevel::H3 => 3,
                HeadingLevel::H4 => 4,
                HeadingLevel::H5 => 5,
                HeadingLevel::H6 => 6,
            },
        ) + seq![' '],
{
    lemma_breaks(margin(st), st.newlines_before_start);
    assert(event_text(o, st, Event::Start(Tag::Heading(level, id, classes))) =~= pending(st) + run(
        '#',
        match level {
            HeadingLevel::H1 => 1,
            HeadingLevel::H2 => 2,
            HeadingLevel::H3 => 3,
            HeadingLevel::H4 => 4,
            HeadingLevel::H5 => 5,
            HeadingLevel::H6 => 6,
        },
    ) + seq![' ']);
}

/// The attributes of a heading: its identifier behind a number sign, and its classes behind dots.
pub open spec fn attributes(id: Option<&str>, classes: Seq<Seq<char>>) -> Seq<Seq<char>> {
    (match id {
        Some(name) => seq![seq!['#'] + name@],
        None => seq![],
    }) + classes.map_values(|c: Seq<char>| seq!['.'] + c)
}

proof fn lemma_class_list(classes: Seq<Seq<char>>)
    requires
        classes.len() > 0,
    ensures
        class_list(classes) == seq!['.'] + classes[0] + classes.skip(1).map_values(
            |c: Seq<char>| seq![' '] + (seq!['.'] + c),
        ).flatten(),
    decreases classes.len(),
{
    let spaced = |c: Seq<char>| seq![' '] + (seq!['.'] + c);
    let rest = classes.skip(1).map_values(spaced);
    if classes.len() == 1 {
        assert(rest.flatten() =~= seq![]);
        assert(class_list(classes) =~= seq!['.'] + classes[0] + rest.flatten());
    } else {
        let before = classes.drop_last();
        lemma_class_list(before);
        let parts = before.skip(1).map_values(spaced);
        parts.lemma_flatten_push(spaced(classes.last()));
        assert(rest =~= parts.push(spaced(classes.last())));
        assert(class_list(classes) =~= seq!['.'] + classes[0] + rest.flatten());
    }
}

proof fn lemma_heading_attributes(id: Option<&str>, classes: Seq<Seq<char>>)
    requires
        attributes(id, classes).len() > 0,
    ensures
        heading_attributes(id, classes) == " {"@ + attributes(id, classes)[0] + attributes(
            id,
            classes,
        ).skip(1).map_values(|a: Seq<char>| seq![' '] + a).flatten() + "}"@,
{
    reveal_strlit("}");
    let all = attributes(id, classes);
    let spaced = |c: Seq<char>| seq![' '] + (seq!['.'] + c);
    let rest = all.skip(1).map_values(|a: Seq<char>| seq![' '] + a);
    let whole = heading_attributes(id, classes);
    match id {
        Some(name) => {
            if classes.len() == 0 {
                assert(rest.flatten() =~= seq![]);
                assert(class_list(classes) =~= seq![]);
            } else {
                lemma_class_list(classes);
                let later = classes.skip(1).map_values(spaced);
                let first = seq![spaced(classes[0])];
                assert(rest =~= first + later);
                vstd::seq_lib::lemma_flatten_concat(first, later);
                assert(first.drop_last() =~= seq![]);
                Seq::<Seq<char>>::empty().lemma_flatten_push(spaced(classes[0]));
                assert(first =~= Seq::<Seq<char>>::empty().push(spaced(classes[0])));
                assert(first.flatten() =~= spaced(classes[0]));
            }
            assert(whole =~= " {"@ + all[0] + rest.flatten() + "}"@);
        },
        None => {
            lemma_class_list(classes);
            assert(rest =~= classes.skip(1).map_values(spaced));
            assert(whole =~= " {"@ + all[0] + rest.flatten() + "}"@);
        },
    }
}

/// A heading ends with all of its attributes in braces, in order and parted by single spaces, and
/// with nothing if it has none. That does not depend on its level.
pub proof fn law_headings_end_with_their_attributes(
    o: OptionsView,
    st: StateView,
    level: HeadingLevel,
    id: Option<&str>,
    classes: Vec<&str>,
)
    ensures
        ({
            let all = attributes(id, classes.deep_view());
            event_text(o, st, Event::End(Tag::Heading(level, id, classes))) == (if all.len() == 0 {
                seq![]
            } else {
                padded(
                    " {"@ + all[0] + all.skip(1).map_values(|a: Seq<char>| seq![' '] + a).flatten()
                        + "}"@,
                    margin(st),
                )
            })
        }),
{
    let names = classes.deep_view();
    let whole = event_text(o, st, Event::End(Tag::Heading(level, id, classes)));
    lemma_padded(heading_attributes(id, names), margin(st));
    if attributes(id, names).len() > 0 {
        lemma_heading_attributes(id, names);
    }
    assert(whole =~= padded(heading_attributes(id, names), margin(st)));
    if attributes(id, names).len() == 0 {
        assert(whole =~= seq![]);
    }
}

/// A block quote begins with its marker, and every line in it begins with what every line around it
/// begins with, and the marker. Nothing is written where it ends.
pub proof fn law_block_quotes_mark_their_lines(o: OptionsView, st: StateView)
    ensures
        !st.last_was_html ==> event_text(o, st, Event::Start(Tag::BlockQuote)) == pending(st)
            + o.blockquote,
        margin(event_state(o, st, Event::Start(Tag::BlockQuote))) == margin(st) + o.blockquote,
        event_state(o, st, Event::Start(Tag::BlockQuote)).line_start() == st.line_start()
            + o.blockquote,
        event_text(o, st, Event::End(Tag::BlockQuote)) == Seq::<char>::empty(),
{
    lemma_breaks(margin(st), st.newlines_before_start);
    if !st.last_was_html {
        assert(event_text(o, st, Event::Start(Tag::BlockQuote)) =~= pending(st) + o.blockquote);
    }
    st.padding.stack.lemma_flatten_push(o.blockquote);
    assert(event_text(o, st, Event::End(Tag::BlockQuote)) =~= Seq::<char>::empty());
}

/// A paragraph begins where the line breaks that are due have led, and ends where its text ends.
pub proof fn law_paragraphs_stand_by_themselves(o: OptionsView, st: StateView)
    ensures
        !st.last_was_html ==> event_text(o, st, Event::Start(Tag::Paragraph)) == pending(st),
        event_text(o, st, Event::End(Tag::Paragraph)) == Seq::<char>::empty(),
{
    lemma_breaks(margin(st), st.newlines_before_start);
    if !st.last_was_html {
        assert(event_text(o, st, Event::Start(Tag::Paragraph)) =~= pending(st));
    }
    assert(event_text(o, st, Event::End(Tag::Paragraph)) =~= Seq::<char>::empty());
}

/// A code block stands between two fences of the same tokens, each on a line of its own. Behind the
/// first one stands what is known of the code.
pub proof fn law_code_blocks_are_fenced(o: OptionsView, st: StateView, info: &str)
    ensures
        ({
            let mark = run(o.code_block_token, o.code_block_token_count);
            let known = Event::Start(Tag::CodeBlock(CodeBlockKind::Fenced(info)));
            &&& !st.last_was_html ==> event_text(
                o,
                st,
                Event::Start(Tag::CodeBlock(CodeBlockKind::Indented)),
            ) == pending(st) + mark + line_end(st)
            &&& !st.last_was_html && st.newlines_before_start > 0 ==> event_text(o, st, known)
                == pending(st) + mark + padded(info@, margin(st)) + line_end(st)
            &&& !st.last_was_html && st.newlines_before_start == 0 ==> event_text(o, st, known)
                == line_end(st) + mark + padded(info@, margin(st)) + line_end(st)
        }),
        forall|kind: CodeBlockKind<'_>| #[trigger]
            event_text(o, st, Event::End(Tag::CodeBlock(kind))) == (
            if st.last_was_text_without_trailing_newline {
                line_end(st)
            } else {
                seq![]
            }) + run(o.code_block_token, o.code_block_token_count),
{
    let mark = run(o.code_block_token, o.code_block_token_count);
    lemma_breaks(margin(st), st.newlines_before_start);
    lemma_padded(info@, margin(st));
    if !st.last_was_html {
        assert(event_text(o, st, Event::Start(Tag::CodeBlock(CodeBlockKind::Indented)))
            =~= pending(st) + mark + line_end(st));
        let known = Event::Start(Tag::CodeBlock(CodeBlockKind::Fenced(info)));
        if st.newlines_before_start > 0 {
            assert(event_text(o, st, known) =~= pending(st) + mark + padded(info@, margin(st))
                + line_end(st));
        } else {
            assert(pending(st) =~= seq![]);
            assert(event_text(o, st, known) =~= line_end(st) + mark + padded(info@, margin(st))
                + line_end(st));
        }
    }
    assert forall|kind: CodeBlockKind<'_>| #[trigger]
        event_text(o, st, Event::End(Tag::CodeBlock(kind))) == (
        if st.last_was_text_without_trailing_newline {
            line_end(st)
        } else {
            seq![]
        }) + mark by {
        assert(event_text(o, st, Event::End(Tag::CodeBlock(kind))) =~= (
        if st.last_was_text_without_trailing_newline {
            line_end(st)
        } else {
            seq![]
        }) + mark);
    }
}

/// A list in another one, of whatever kind the two are, begins on a line of its own: at least
/// `newlines_after_rest` line breaks come before it, and more if more are due. Where a block quote
/// stands between the two, and where there is no list around it, only those come before it that are
/// due. Nothing else is written where a list begins, nor where it ends.
pub proof fn law_nested_lists_begin_on_their_own_lines(
    o: OptionsView,
    st: StateView,
    first: Option<u64>,
)
    ensures
        ({
            let in_quote = st.padding.stack.len() > 0 && st.padding.stack.last() == o.blockquote;
            let begin = event_text(o, st, Event::Start(Tag::List(first)));
            &&& !st.last_was_html && st.list_stack.len() > 0 && !in_quote
                && st.newlines_before_start <= o.newlines_after_rest ==> begin == breaks(
                margin(st),
                o.newlines_after_rest,
            )
            &&& !st.last_was_html && st.list_stack.len() > 0 && !in_quote
                && st.newlines_before_start > o.newlines_after_rest ==> begin == pending(st)
            &&& !st.last_was_html && (st.list_stack.len() == 0 || in_quote) ==> begin == pending(st)
        }),
        event_text(o, st, Event::End(Tag::List(first))) == Seq::<char>::empty(),
{
    lemma_breaks(margin(st), st.newlines_before_start);
    lemma_breaks(margin(st), o.newlines_after_rest);
    let begin = event_text(o, st, Event::Start(Tag::List(first)));
    if !st.last_was_html {
        if st.list_stack.len() > 0 && !st.padding.ends_with(o.blockquote)
            && st.newlines_before_start < o.newlines_after_rest {
            assert(begin =~= breaks(margin(st), o.newlines_after_rest));
        } else {
            assert(begin =~= pending(st));
        }
    }
    assert(event_text(o, st, Event::End(Tag::List(first))) =~= Seq::<char>::empty());
}

/// Whether `c` is a decimal digit.
pub open spec fn is_digit(c: char) -> bool {
    '0' <= c <= '9'
}

/// The number that decimal digits stand for.
pub open spec fn value(digits: Seq<char>) -> int
    decreases digits.len(),
{
    if digits.len() == 0 {
        0
    } else {
        value(digits.drop_last()) * 10 + (digits.last() as int - '0' as int)
    }
}

proof fn lemma_numeral(n: nat)
    ensures
        numeral(n).len() > 0,
        forall|i: int| 0 <= i < numeral(n).len() ==> is_digit(#[trigger] numeral(n)[i]),
        value(numeral(n)) == n,
        numeral(n).len() > 1 ==> numeral(n)[0] != '0',
        n > 0 ==> numeral(n)[0] != '0',
    decreases n,
{
    let last = (n % 10) as int;
    assert(digit(last) as int == '0' as int + last);
    if n < 10 {
        assert(numeral(n).drop_last() =~= seq![]);
        assert(value(numeral(n).drop_last()) == 0);
        assert(numeral(n).last() == digit(last));
    } else {
        lemma_numeral(n / 10);
        assert(numeral(n).drop_last() =~= numeral(n / 10));
        assert(numeral(n).last() == digit(last));
        assert(value(numeral(n)) == (n / 10) * 10 + last);
    }
}

/// An item of an ordered list begins with the number of the list in decimal, without leading zeros,
/// the token of ordered lists, and a space.
pub proof fn law_ordered_items_begin_with_their_number(o: OptionsView, st: StateView)
    requires
        !st.last_was_html,
        st.list_stack.len() > 0,
        st.list_stack.last() is Some,
    ensures
        ({
            let begin = event_text(o, st, Event::Start(Tag::Item));
            let digits = begin.subrange(pending(st).len() as int, begin.len() - 2);
            &&& begin.len() > pending(st).len() + 2
            &&& begin == pending(st) + digits + seq![o.ordered_list_token, ' ']
            &&& forall|i: int| 0 <= i < digits.len() ==> is_digit(#[trigger] digits[i])
            &&& digits.len() > 1 ==> digits[0] != '0'
            &&& value(digits) == st.list_stack.last()->0
        }),
{
    reveal_strlit(" ");
    lemma_breaks(margin(st), st.newlines_before_start);
    let n = st.list_stack.last()->0 as nat;
    lemma_numeral(n);
    let begin = event_text(o, st, Event::Start(Tag::Item));
    assert(begin =~= pending(st) + numeral(n) + seq![o.ordered_list_token, ' ']);
    assert(begin.subrange(pending(st).len() as int, begin.len() - 2) =~= numeral(n));
}

/// An item of another list begins with the token of lists, and a space. Outside of a list nothing
/// but the line breaks that are due is written. Nothing is written where an item ends.
pub proof fn law_unordered_items_begin_with_their_token(o: OptionsView, st: StateView)
    ensures
        !st.last_was_html && st.list_stack.len() > 0 && st.list_stack.last() is None ==> event_text(
            o,
            st,
            Event::Start(Tag::Item),
        ) == pending(st) + seq![o.list_token, ' '],
        !st.last_was_html && st.list_stack.len() == 0 ==> event_text(
            o,
            st,
            Event::Start(Tag::Item),
        ) == pending(st),
        event_text(o, st, Event::End(Tag::Item)) == Seq::<char>::empty(),
{
    reveal_strlit(" ");
    lemma_breaks(margin(st), st.newlines_before_start);
    if !st.last_was_html && st.list_stack.len() > 0 && st.list_stack.last() is None {
        assert(event_text(o, st, Event::Start(Tag::Item)) =~= pending(st) + seq![
            o.list_token,
            ' ',
        ]);
    }
    if !st.last_was_html && st.list_stack.len() == 0 {
        assert(event_text(o, st, Event::Start(Tag::Item)) =~= pending(st));
    }
    assert(event_text(o, st, Event::End(Tag::Item)) =~= Seq::<char>::empty());
}

/// What is in an item is indented by as many spaces as its marker is wide.
pub proof fn law_items_are_indented_by_their_marker(o: OptionsView, st: StateView)
    requires
        !st.last_was_html,
        st.list_stack.len() > 0,
    ensures
        ({
            let marker = event_text(o, st, Event::Start(Tag::Item)).len() - pending(st).len();
            let later = event_state(o, st, Event::Start(Tag::Item));
            &&& later.padding.stack == st.padding.stack.push(run(' ', marker as nat))
            &&& later.padding.alignments == st.padding.alignments
            &&& margin(later) == margin(st) + run(' ', marker as nat)
        }),
{
    reveal_strlit(" ");
    reveal_strlit("  ");
    lemma_breaks(margin(st), st.newlines_before_start);
    let begin = event_text(o, st, Event::Start(Tag::Item));
    let marker = begin.len() - pending(st).len();
    let added = item_padding(st.list_stack.last());
    if let Some(n) = st.list_stack.last() {
        assert(begin.len() == pending(st).len() + numeral(n as nat).len() + 2);
    } else {
        assert(begin.len() == pending(st).len() + 2);
    }
    assert(added =~= run(' ', marker as nat));
    st.padding.stack.lemma_flatten_push(added);
}

/// The definition of a footnote begins with its label, and a horizontal rule is three dashes.
pub proof fn law_footnotes_begin_with_their_label(o: OptionsView, st: StateView, name: &str)
    ensures
        !st.last_was_html ==> event_text(o, st, Event::Start(Tag::FootnoteDefinition(name)))
            == pending(st) + "[^"@ + padded(name@, margin(st)) + "]: "@,
        event_text(o, st, Event::End(Tag::FootnoteDefinition(name))) == Seq::<char>::empty(),
        !st.last_was_html ==> event_text(o, st, Event::FootnoteReference(name)) == "[^"@ + padded(
            name@,
            margin(st),
        ) + "]"@,
        !st.last_was_html ==> event_text(o, st, Event::Rule) == pending(st) + "---"@,
{
    lemma_breaks(margin(st), st.newlines_before_start);
    lemma_padded(name@, margin(st));
    if !st.last_was_html {
        assert(event_text(o, st, Event::Start(Tag::FootnoteDefinition(name))) =~= pending(st)
            + "[^"@ + padded(name@, margin(st)) + "]: "@);
        assert(event_text(o, st, Event::FootnoteReference(name)) =~= "[^"@ + padded(
            name@,
            margin(st),
        ) + "]"@);
        assert(event_text(o, st, Event::Rule) =~= pending(st) + "---"@);
    }
    assert(event_text(o, st, Event::End(Tag::FootnoteDefinition(name))) =~= Seq::<char>::empty());
}

} // verus!
