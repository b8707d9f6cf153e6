//! What holds of the lines of a document.
use vstd::prelude::*;

use crate::event::{Alignment, CodeBlockKind, Event, LinkType, Tag};
use crate::model::{
    closing, code_mark_len, code_span, column_count, column_rule, column_rules, entering,
    event_content, event_text, fence, header_rule, heading_attributes, html_separator, line_breaks,
    link_closing, opening, reflowed, StateView,
};
use crate::options::OptionsView;
use crate::text::{digit, lemma_contained_in_sum, numeral, repeated};

verus! {

/// Whether `start` stands behind each newline of `text`.
pub open spec fn begins_lines(start: Seq<char>, text: Seq<char>) -> bool {
    forall|i: int|
        0 <= i < text.len() && #[trigger] text[i] == '\n' ==> start.is_prefix_of(text.skip(i + 1))
}

/// `start` stands behind each newline of two texts one behind the other if it does so in both.
broadcast proof fn lemma_begins_lines_of_both(start: Seq<char>, a: Seq<char>, b: Seq<char>)
    requires
        begins_lines(start, a),
        begins_lines(start, b),
    ensures
        #[trigger] begins_lines(start, a + b),
{
    let text = a + b;
    assert forall|i: int|
        0 <= i < text.len() && #[trigger] text[i] == '\n' implies start.is_prefix_of(
        text.skip(i + 1),
    ) by {
        if i < a.len() {
            assert(a[i] == '\n');
            assert(a.skip(i + 1) + b =~= text.skip(i + 1));
        } else {
            assert(b[i - a.len()] == '\n');
            assert(b.skip(i - a.len() + 1) =~= text.skip(i + 1));
        }
    }
}

/// Where there is no newline, nothing has to stand behind it.
broadcast proof fn lemma_begins_lines_on_one_line(start: Seq<char>, text: Seq<char>)
    requires
        !text.contains('\n'),
    ensures
        #[trigger] begins_lines(start, text),
{
}

proof fn lemma_line_break(start: Seq<char>)
    requires
        !start.contains('\n'),
    ensures
        begins_lines(start, seq!['\n'] + start),
{
    let one = seq!['\n'] + start;
    assert forall|i: int|
        0 <= i < one.len() && #[trigger] one[i] == '\n' implies start.is_prefix_of(
        one.skip(i + 1),
    ) by {
        if i > 0 {
            assert(start[i - 1] == '\n');
        }
    }
}

proof fn lemma_line_breaks(start: Seq<char>, n: nat)
    requires
        !start.contains('\n'),
    ensures
        begins_lines(start, line_breaks(start, n)),
    decreases n,
{
    if n > 0 {
        lemma_line_breaks(start, (n - 1) as nat);
        lemma_line_break(start);
        lemma_begins_lines_of_both(
            start,
            line_breaks(start, (n - 1) as nat),
            seq!['\n'] + start,
        );
    }
}

proof fn lemma_reflowed(t: Seq<char>, start: Seq<char>)
    requires
        !start.contains('\n'),
    ensures
        begins_lines(start, reflowed(t, start)),
    decreases t.len(),
{
    if t.len() > 0 {
        lemma_reflowed(t.drop_last(), start);
        let before = reflowed(t.drop_last(), start);
        if t.last() == '\n' {
            lemma_line_break(start);
            lemma_begins_lines_of_both(start, before, seq!['\n'] + start);
        } else {
            lemma_begins_lines_of_both(start, before, seq![t.last()]);
            assert(before + seq![t.last()] =~= before.push(t.last()));
        }
    }
}

proof fn lemma_numeral_on_one_line(n: nat)
    ensures
        !numeral(n).contains('\n'),
    decreases n,
{
    if n >= 10 {
        lemma_numeral_on_one_line(n / 10);
        lemma_contained_in_sum(numeral(n / 10), seq![digit((n % 10) as int)], '\n');
        assert(numeral(n) =~= numeral(n / 10) + seq![digit((n % 10) as int)]);
    }
}

proof fn lemma_column_rules_on_one_line(
    o: OptionsView,
    alignments: Seq<Alignment>,
    headers: Seq<Seq<char>>,
    n: nat,
)
    ensures
        !column_rules(o, alignments, headers, n).contains('\n'),
    decreases n,
{
    if n > 0 {
        lemma_column_rules_on_one_line(o, alignments, headers, (n - 1) as nat);
        let rule = column_rule(o, alignments[n - 1], headers[n - 1]);
        lemma_contained_in_sum(seq!['|'], rule, '\n');
        lemma_contained_in_sum(
            column_rules(o, alignments, headers, (n - 1) as nat),
            seq!['|'] + rule,
            '\n',
        );
    }
}

/// The tokens that an event writes.
pub open spec fn tokens(o: OptionsView, e: Event<'_>) -> Seq<Seq<char>> {
    match e {
        Event::Start(Tag::BlockQuote) => seq![o.blockquote],
        Event::Start(Tag::CodeBlock(_)) => seq![seq![o.code_block_token]],
        Event::Start(Tag::Item) => seq![seq![o.list_token], seq![o.ordered_list_token]],
        Event::Start(Tag::Emphasis) => seq![seq![o.emphasis_token]],
        Event::Start(Tag::Strong) => seq![o.strong_token],
        Event::End(Tag::CodeBlock(_)) => seq![seq![o.code_block_token]],
        Event::End(Tag::Emphasis) => seq![seq![o.emphasis_token]],
        Event::End(Tag::Strong) => seq![o.strong_token],
        Event::Code(_) => seq![seq![o.code_block_token]],
        _ => seq![],
    }
}

/// Whether there is no newline in any of `parts`.
pub open spec fn are_on_one_line(parts: Seq<Seq<char>>) -> bool {
    forall|i: int| 0 <= i < parts.len() ==> !(#[trigger] parts[i]).contains('\n')
}

proof fn lemma_opening_begins_lines(o: OptionsView, st: StateView, tag: Tag<'_>)
    requires
        !st.line_start().contains('\n'),
        are_on_one_line(tokens(o, Event::Start(tag))),
    ensures
        begins_lines(st.line_start(), opening(o, st, tag)),
{
    broadcast use {lemma_begins_lines_of_both, lemma_begins_lines_on_one_line};

    let start = st.line_start();
    let parts = tokens(o, Event::Start(tag));
    lemma_line_break(start);
    reveal_strlit(" ");
    reveal_strlit("[^");
    reveal_strlit("]: ");
    reveal_strlit("~~");
    reveal_strlit("![");
    match tag {
        Tag::CodeBlock(kind) => {
            assert(!parts[0].contains('\n') && parts[0][0] == o.code_block_token);
            assert(!fence(o).contains('\n'));
            if let CodeBlockKind::Fenced(info) = kind {
                lemma_reflowed(info@, start);
            }
        },
        Tag::Item => {
            assert(!parts[0].contains('\n') && parts[0][0] == o.list_token);
            assert(!parts[1].contains('\n') && parts[1][0] == o.ordered_list_token);
            if st.list_stack.len() > 0 {
                if let Some(n) = st.list_stack.last() {
                    lemma_numeral_on_one_line(n as nat);
                }
            }
        },
        Tag::FootnoteDefinition(name) => {
            lemma_reflowed(name@, start);
        },
        _ => {
            if parts.len() > 0 {
                assert(!parts[0].contains('\n'));
            }
        },
    }
}

proof fn lemma_closing_begins_lines(o: OptionsView, st: StateView, tag: Tag<'_>)
    requires
        !st.line_start().contains('\n'),
        are_on_one_line(tokens(o, Event::End(tag))),
    ensures
        begins_lines(st.line_start(), closing(o, st, tag)),
{
    let start = st.line_start();
    let parts = tokens(o, Event::End(tag));
    lemma_line_break(start);
    reveal_strlit("~~");
    match tag {
        Tag::Heading(_, id, classes) => {
            lemma_reflowed(heading_attributes(id, classes.deep_view()), start);
        },
        Tag::CodeBlock(_) => {
            assert(!parts[0].contains('\n') && parts[0][0] == o.code_block_token);
            assert(!fence(o).contains('\n'));
            lemma_begins_lines_of_both(start, st.line_break(), fence(o));
        },
        Tag::TableHead => {
            let rules = column_rules(
                o,
                st.table_alignments,
                st.table_headers,
                column_count(st),
            );
            lemma_column_rules_on_one_line(
                o,
                st.table_alignments,
                st.table_headers,
                column_count(st),
            );
            lemma_begins_lines_of_both(start, st.line_break(), rules);
            lemma_begins_lines_of_both(start, st.line_break() + rules, seq!['|']);
            lemma_begins_lines_of_both(start, seq!['|'], header_rule(o, st));
        },
        Tag::Link(_, uri, title) => {
            lemma_reflowed(link_closing(uri@, title@, LinkType::Inline), start);
        },
        Tag::Image(_, uri, title) => {
            lemma_reflowed(link_closing(uri@, title@, LinkType::Inline), start);
        },
        _ => {
            if parts.len() > 0 {
                assert(!parts[0].contains('\n'));
            }
        },
    }
}

/// The padding is printed after each newline, whatever the event that puts the newline in: it
/// stands behind each newline of the text of an event. Only the padding and the tokens, which are
/// written as they stand, must hold no newline.
pub proof fn law_lines_begin_with_the_padding(o: OptionsView, st: StateView, e: Event<'_>)
    requires
        !st.line_start().contains('\n'),
        are_on_one_line(tokens(o, e)),
    ensures
        begins_lines(st.line_start(), event_text(o, st, e)),
{
    broadcast use {lemma_begins_lines_of_both, lemma_begins_lines_on_one_line};

    let start = st.line_start();
    let parts = tokens(o, e);
    lemma_line_break(start);
    lemma_line_breaks(start, st.newlines_before_start);
    assert(begins_lines(start, html_separator(st, e)));
    match e {
        Event::Start(tag) => {
            lemma_line_breaks(start, entering(o, st, tag).newlines_before_start);
            lemma_opening_begins_lines(o, entering(o, st, tag), tag);
        },
        Event::End(tag) => {
            lemma_closing_begins_lines(o, st, tag);
        },
        Event::Text(t) => {
            lemma_reflowed(st.escaped(o, t@), start);
        },
        Event::Html(t) => {
            lemma_reflowed(t@, start);
        },
        Event::Code(t) => {
            let token = o.code_block_token;
            let mark = repeated(token, code_mark_len(o, t@));
            assert(!parts[0].contains('\n') && parts[0][0] == token);
            assert(!mark.push(' ').contains('\n'));
            assert(!mark.contains('\n'));
            lemma_reflowed(t@, start);
            assert(begins_lines(start, code_span(o, t@, start)));
        },
        Event::FootnoteReference(name) => {
            reveal_strlit("[^");
            reveal_strlit("]");
            lemma_reflowed(name@, start);
        },
        Event::HardBreak => {
            reveal_strlit("  \n");
            assert("  \n"@ + start =~= seq![' ', ' '] + (seq!['\n'] + start));
            assert(!seq![' ', ' '].contains('\n'));
        },
        Event::Rule => {
            reveal_strlit("---");
        },
        Event::TaskListMarker(_) => {
            reveal_strlit("[");
            reveal_strlit("x");
            reveal_strlit(" ");
            reveal_strlit("] ");
        },
        Event::SoftBreak => {},
    }
    assert(begins_lines(start, event_content(o, st, e)));
}

} // verus!
