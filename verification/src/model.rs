//! What rendering means: the text of each event, and the state that each event leaves.
use vstd::prelude::*;

use crate::event::{Alignment, CodeBlockKind, Event, HeadingLevel, LinkType, Tag};
use crate::options::OptionsView;
use crate::padding::PaddingView;
use crate::text::{byte_len, longest_run, numeral, repeated};

verus! {

/// The contents of a [`State`](crate::State).
#[verifier::ext_equal]
pub struct StateView {
    pub newlines_before_start: nat,
    pub list_stack: Seq<Option<u64>>,
    pub padding: PaddingView,
    pub table_alignments: Seq<Alignment>,
    pub table_headers: Seq<Seq<char>>,
    pub text_for_header: Option<Seq<char>>,
    pub is_in_code_block: bool,
    pub last_was_html: bool,
    pub last_was_text_without_trailing_newline: bool,
    pub current_shortcut_text: Option<Seq<char>>,
    pub shortcuts: Seq<(Seq<char>, Seq<char>, Seq<char>)>,
}

/// `kept`, if there is any, with `more` behind it.
pub open spec fn extended(kept: Option<Seq<char>>, more: Seq<char>) -> Option<Seq<char>> {
    match kept {
        Some(text) => Some(text + more),
        None => None,
    }
}

/// `n` times a newline and `start`.
pub open spec fn line_breaks(start: Seq<char>, n: nat) -> Seq<char>
    decreases n,
{
    if n == 0 {
        seq![]
    } else {
        line_breaks(start, (n - 1) as nat) + (seq!['\n'] + start)
    }
}

/// `t` with `start` at the beginning of each of its lines but the first.
pub open spec fn reflowed(t: Seq<char>, start: Seq<char>) -> Seq<char>
    decreases t.len(),
{
    if t.len() == 0 {
        seq![]
    } else if t.last() == '\n' {
        reflowed(t.drop_last(), start) + (seq!['\n'] + start)
    } else {
        reflowed(t.drop_last(), start).push(t.last())
    }
}

impl StateView {
    /// The state before the first event.
    pub open spec fn initial() -> StateView {
        StateView {
            newlines_before_start: 0,
            list_stack: seq![],
            padding: PaddingView::empty(),
            table_alignments: seq![],
            table_headers: seq![],
            text_for_header: None,
            is_in_code_block: false,
            last_was_html: false,
            last_was_text_without_trailing_newline: false,
            current_shortcut_text: None,
            shortcuts: seq![],
        }
    }

    /// This state with the marks of the last event taken off.
    pub open spec fn unmarked(self) -> StateView {
        StateView { last_was_html: false, last_was_text_without_trailing_newline: false, ..self }
    }

    /// This state with no newlines due.
    pub open spec fn without_newlines(self) -> StateView {
        StateView { newlines_before_start: 0, ..self }
    }

    /// This state with at least `n` newlines due.
    pub open spec fn at_least(self, n: nat) -> StateView {
        if self.newlines_before_start < n {
            StateView { newlines_before_start: n, ..self }
        } else {
            self
        }
    }

    /// What is written at the beginning of a line.
    pub open spec fn line_start(self) -> Seq<char> {
        self.padding.line_start()
    }

    /// A newline, and the beginning of the next line.
    pub open spec fn line_break(self) -> Seq<char> {
        seq!['\n'] + self.line_start()
    }

    /// The line breaks that are due.
    pub open spec fn due(self) -> Seq<char> {
        line_breaks(self.line_start(), self.newlines_before_start)
    }

    /// `t` as it is written: a special character at its beginning is escaped, but not in a code
    /// block.
    pub open spec fn escaped(self, o: OptionsView, t: Seq<char>) -> Seq<char> {
        if !self.is_in_code_block && t.len() > 0 && o.specials().contains(t[0]) {
            seq!['\\'] + t
        } else {
            t
        }
    }
}

/// The fence of a code block.
pub open spec fn fence(o: OptionsView) -> Seq<char> {
    repeated(o.code_block_token, o.code_block_token_count)
}

/// How many tokens stand on both sides of inline code that has tokens in it: two or, for a faithful
/// rendering, one more than in the longest run of them in it.
pub open spec fn code_mark_len(o: OptionsView, t: Seq<char>) -> nat {
    if o.is_standard() {
        longest_run(t, o.code_block_token) + 1
    } else {
        2
    }
}

/// Inline code, with `start` at the beginning of each of its lines but the first: between two
/// tokens or, if there are tokens in it, between two runs of them, with a space on both sides.
pub open spec fn code_span(o: OptionsView, t: Seq<char>, start: Seq<char>) -> Seq<char> {
    let token = o.code_block_token;
    if t.contains(token) {
        let mark = repeated(token, code_mark_len(o, t));
        mark.push(' ') + reflowed(t, start) + (seq![' '] + mark)
    } else {
        seq![token] + reflowed(t, start) + seq![token]
    }
}

/// The destination of a link: in angle brackets if there is a space in it.
pub open spec fn link_destination(uri: Seq<char>) -> Seq<char> {
    if uri.contains(' ') {
        "<"@ + uri + ">"@
    } else {
        uri
    }
}

/// The title of a link, if it has one: in quotes, behind a space.
pub open spec fn link_title(title: Seq<char>) -> Seq<char> {
    if title.len() > 0 {
        " \""@ + title + "\""@
    } else {
        seq![]
    }
}

/// What closes a link, an image or the definition of a shortcut.
pub open spec fn link_closing(uri: Seq<char>, title: Seq<char>, link_type: LinkType) -> Seq<char> {
    if link_type == LinkType::Shortcut {
        "]"@ + ": "@ + link_destination(uri) + link_title(title)
    } else {
        "]"@ + "("@ + link_destination(uri) + link_title(title) + seq![')']
    }
}

/// The rank of a heading, from 1 to 6.
pub open spec fn rank(level: HeadingLevel) -> nat {
    match level {
        HeadingLevel::H1 => 1,
        HeadingLevel::H2 => 2,
        HeadingLevel::H3 => 3,
        HeadingLevel::H4 => 4,
        HeadingLevel::H5 => 5,
        HeadingLevel::H6 => 6,
    }
}

/// The classes of a heading, each behind a dot, with a space between them.
pub open spec fn class_list(classes: Seq<Seq<char>>) -> Seq<char>
    decreases classes.len(),
{
    if classes.len() == 0 {
        seq![]
    } else if classes.len() == 1 {
        seq!['.'] + classes[0]
    } else {
        class_list(classes.drop_last()) + seq![' '] + seq!['.'] + classes.last()
    }
}

/// The identifier and the classes of a heading, in braces.
pub open spec fn heading_attributes(id: Option<&str>, classes: Seq<Seq<char>>) -> Seq<char> {
    let anchor = match id {
        Some(name) => seq!['#'] + name@,
        None => seq![],
    };
    let separator = if id is Some && classes.len() > 0 {
        seq![' ']
    } else {
        seq![]
    };
    if id is None && classes.len() == 0 {
        seq![]
    } else {
        " {"@ + anchor + separator + class_list(classes) + seq!['}']
    }
}

/// The rule below the table header `name`: as many characters as `name` has bytes, with a colon at
/// its beginning, where the last character of `name` stands, or at both, as `alignment` asks for.
/// For a faithful rendering, the second colon stands at the end of the rule, and a rule with such a
/// colon is at least two characters wide, so that its end is not its beginning.
pub open spec fn column_rule(o: OptionsView, alignment: Alignment, name: Seq<char>) -> Seq<char> {
    let left = alignment == Alignment::Left || alignment == Alignment::Center;
    let right = alignment == Alignment::Right || alignment == Alignment::Center;
    let width: nat = if o.is_standard() && right && byte_len(name) < 2 {
        2
    } else {
        byte_len(name)
    };
    let last: int = if o.is_standard() {
        width - 1
    } else if name.len() == 0 {
        0
    } else {
        name.len() - 1
    };
    Seq::new(
        width,
        |i: int|
            if (i == 0 && left) || (i == last && right) {
                ':'
            } else {
                '-'
            },
    )
}

/// The rules below the first `n` headers of a table, each behind a bar.
pub open spec fn column_rules(
    o: OptionsView,
    alignments: Seq<Alignment>,
    headers: Seq<Seq<char>>,
    n: nat,
) -> Seq<char>
    decreases n,
{
    if n == 0 {
        seq![]
    } else {
        column_rules(o, alignments, headers, (n - 1) as nat) + (seq!['|'] + column_rule(
            o,
            alignments[n - 1],
            headers[n - 1],
        ))
    }
}

/// The number of columns that have both an alignment and a header.
pub open spec fn column_count(st: StateView) -> nat {
    if st.table_alignments.len() < st.table_headers.len() {
        st.table_alignments.len()
    } else {
        st.table_headers.len()
    }
}

/// The line below the header of a table.
pub open spec fn header_rule(o: OptionsView, st: StateView) -> Seq<char> {
    st.line_break() + column_rules(
        o,
        st.table_alignments,
        st.table_headers,
        column_count(st),
    ) + seq!['|']
}

/// Whether a link of this form is written in angle brackets.
pub open spec fn is_angled(link_type: LinkType) -> bool {
    link_type == LinkType::Autolink || link_type == LinkType::Email
}

/// The line break that parts HTML from the Markdown behind it.
pub open spec fn html_separator(st: StateView, e: Event) -> Seq<char> {
    if st.last_was_html && !(e is Html || e is Text || e is End || e is SoftBreak) {
        st.line_break()
    } else {
        seq![]
    }
}

/// The state in which an element begins, with the line breaks before it still due. A list in a
/// list begins on a line of its own, unless a block quote stands between the two.
pub open spec fn entering(o: OptionsView, st: StateView, tag: Tag) -> StateView {
    match tag {
        Tag::List(first) => {
            let listed = StateView { list_stack: st.list_stack.push(first), ..st };
            if st.list_stack.len() > 0 && !st.padding.ends_with(o.blockquote) {
                listed.at_least(o.newlines_after_rest)
            } else {
                listed
            }
        },
        _ => st,
    }
}

/// The marker of an item in the innermost list.
pub open spec fn item_marker(o: OptionsView, lists: Seq<Option<u64>>) -> Seq<char> {
    if lists.len() == 0 {
        seq![]
    } else {
        match lists.last() {
            Some(n) => numeral(n as nat) + seq![o.ordered_list_token] + " "@,
            None => seq![o.list_token] + " "@,
        }
    }
}

/// The padding of the lines of an item: as wide as its marker, with one token.
pub open spec fn item_padding(list: Option<u64>) -> Seq<char> {
    match list {
        Some(n) => repeated(' ', numeral(n as nat).len() + 2),
        None => "  "@,
    }
}

/// What is written where an element begins, behind the line breaks.
pub open spec fn opening(o: OptionsView, st: StateView, tag: Tag) -> Seq<char> {
    match tag {
        Tag::Paragraph => seq![],
        Tag::Heading(level, _, _) => repeated('#', rank(level)) + seq![' '],
        Tag::BlockQuote => o.blockquote,
        Tag::CodeBlock(CodeBlockKind::Indented) => fence(o) + st.line_break(),
        Tag::CodeBlock(CodeBlockKind::Fenced(info)) => {
            let separator = if st.newlines_before_start == 0 {
                st.line_break()
            } else {
                seq![]
            };
            separator + fence(o) + reflowed(info@, st.line_start()) + st.line_break()
        },
        Tag::List(_) => seq![],
        Tag::Item => item_marker(o, st.list_stack),
        Tag::FootnoteDefinition(name) => "[^"@ + reflowed(name@, st.line_start()) + "]: "@,
        Tag::Table(_) => seq![],
        Tag::TableHead => seq![],
        Tag::TableRow => seq![],
        Tag::TableCell => seq!['|'],
        Tag::Emphasis => seq![o.emphasis_token],
        Tag::Strong => o.strong_token,
        Tag::Strikethrough => "~~"@,
        Tag::Link(link_type, _, _) => if is_angled(link_type) {
            seq!['<']
        } else {
            seq!['[']
        },
        Tag::Image(_, _, _) => "!["@,
    }
}

/// The lists after an item has begun: the number of the next item in the innermost one, if items
/// are counted.
pub open spec fn counted(o: OptionsView, lists: Seq<Option<u64>>) -> Seq<Option<u64>> {
    if o.increment_ordered_list_bullets && lists.len() > 0 {
        match lists.last() {
            Some(n) => lists.drop_last().push(Some((n + 1) as u64)),
            None => lists,
        }
    } else {
        lists
    }
}

/// The state behind the beginning of an element, from the state in which the element begins.
pub open spec fn entered(o: OptionsView, st: StateView, tag: Tag) -> StateView {
    let s = st.unmarked().without_newlines();
    match tag {
        Tag::BlockQuote => StateView { padding: s.padding.push(o.blockquote), ..s },
        Tag::CodeBlock(_) => StateView { is_in_code_block: true, ..s },
        Tag::Item => if s.list_stack.len() == 0 {
            s
        } else {
            StateView {
                padding: s.padding.push(item_padding(s.list_stack.last())),
                list_stack: counted(o, s.list_stack),
                ..s
            }
        },
        Tag::Table(alignments) => StateView { table_alignments: alignments@, ..s },
        Tag::TableCell => StateView { text_for_header: Some(seq![]), ..s },
        Tag::Link(LinkType::Shortcut, _, _) => StateView {
            current_shortcut_text: Some(seq![]),
            ..s
        },
        _ => s,
    }
}

/// What is written where an element ends.
pub open spec fn closing(o: OptionsView, st: StateView, tag: Tag) -> Seq<char> {
    match tag {
        Tag::Paragraph => seq![],
        Tag::Heading(_, id, classes) => reflowed(
            heading_attributes(id, classes.deep_view()),
            st.line_start(),
        ),
        Tag::BlockQuote => seq![],
        Tag::CodeBlock(_) => if st.last_was_text_without_trailing_newline {
            st.line_break() + fence(o)
        } else {
            fence(o)
        },
        Tag::List(_) => seq![],
        Tag::Item => seq![],
        Tag::FootnoteDefinition(_) => seq![],
        Tag::Table(_) => seq![],
        Tag::TableHead => seq!['|'] + header_rule(o, st),
        Tag::TableRow => seq!['|'],
        Tag::TableCell => seq![],
        Tag::Emphasis => seq![o.emphasis_token],
        Tag::Strong => o.strong_token,
        Tag::Strikethrough => "~~"@,
        Tag::Link(link_type, uri, title) => if is_angled(link_type) {
            seq!['>']
        } else if link_type == LinkType::Shortcut {
            seq![']']
        } else {
            reflowed(link_closing(uri@, title@, LinkType::Inline), st.line_start())
        },
        Tag::Image(_, uri, title) => reflowed(
            link_closing(uri@, title@, LinkType::Inline),
            st.line_start(),
        ),
    }
}

/// The header that a table cell leaves.
pub open spec fn cell_header(text: Option<Seq<char>>) -> Seq<char> {
    match text {
        Some(t) => if t.len() > 0 {
            t
        } else {
            "  "@
        },
        None => "  "@,
    }
}

/// The state behind the end of an element.
pub open spec fn left(o: OptionsView, st: StateView, tag: Tag) -> StateView {
    let s = st.unmarked();
    match tag {
        Tag::Paragraph => s.at_least(o.newlines_after_paragraph),
        Tag::Heading(_, _, _) => s.at_least(o.newlines_after_headline),
        Tag::BlockQuote => StateView { padding: s.padding.unaligned().pop(), ..s }.at_least(
            o.newlines_after_blockquote,
        ),
        Tag::CodeBlock(_) => StateView { is_in_code_block: false, ..s }.at_least(
            o.newlines_after_codeblock,
        ),
        Tag::List(_) => if s.list_stack.len() <= 1 {
            StateView { list_stack: seq![], ..s }.at_least(o.newlines_after_list)
        } else {
            StateView { list_stack: s.list_stack.drop_last(), ..s }
        },
        Tag::Item => StateView { padding: s.padding.unaligned().pop(), ..s }.at_least(
            o.newlines_after_rest,
        ),
        Tag::Table(_) => StateView {
            table_alignments: seq![],
            table_headers: seq![],
            ..s
        }.at_least(o.newlines_after_table),
        Tag::TableHead => s.at_least(o.newlines_after_rest),
        Tag::TableRow => s.at_least(o.newlines_after_rest),
        Tag::TableCell => StateView {
            table_headers: s.table_headers.push(cell_header(s.text_for_header)),
            text_for_header: None,
            ..s
        },
        Tag::Link(LinkType::Shortcut, uri, title) => match s.current_shortcut_text {
            Some(text) => StateView {
                shortcuts: s.shortcuts.push((text, uri@, title@)),
                current_shortcut_text: None,
                ..s
            },
            None => s,
        },
        _ => s,
    }
}

/// The text of an event itself.
pub open spec fn event_content(o: OptionsView, st: StateView, e: Event) -> Seq<char> {
    match e {
        Event::Start(tag) => entering(o, st, tag).due() + opening(o, entering(o, st, tag), tag),
        Event::End(tag) => closing(o, st, tag),
        Event::Text(t) => st.due() + reflowed(st.escaped(o, t@), st.line_start()),
        Event::Code(t) => code_span(o, t@, st.line_start()),
        Event::Html(t) => st.due() + reflowed(t@, st.line_start()),
        Event::FootnoteReference(name) => "[^"@ + reflowed(name@, st.line_start()) + "]"@,
        Event::SoftBreak => st.line_break(),
        Event::HardBreak => "  \n"@ + st.line_start(),
        Event::Rule => st.due() + "---"@,
        Event::TaskListMarker(checked) => if checked {
            "["@ + "x"@ + "] "@
        } else {
            "["@ + " "@ + "] "@
        },
    }
}

/// The text that an event adds to the document.
pub open spec fn event_text(o: OptionsView, st: StateView, e: Event) -> Seq<char> {
    html_separator(st, e) + event_content(o, st, e)
}

/// Whether `e` is where a shortcut begins or ends.
pub open spec fn bounds_shortcut(e: Event) -> bool {
    match e {
        Event::Start(Tag::Link(link_type, _, _)) => link_type == LinkType::Shortcut,
        Event::End(Tag::Link(link_type, _, _)) => link_type == LinkType::Shortcut,
        _ => false,
    }
}

/// What an event in a shortcut adds to its label: text, and code between backticks. For a faithful
/// rendering it is the text that the event adds to the document, but for the padding of its lines:
/// the label stands in a definition too, where there is no padding.
pub open spec fn label_text(o: OptionsView, st: StateView, e: Event) -> Seq<char> {
    if o.is_standard() {
        event_text(o, StateView { padding: PaddingView::empty(), ..st }, e)
    } else {
        match e {
            Event::Text(t) => t@,
            Event::Code(t) => "`"@ + t@ + "`"@,
            _ => seq![],
        }
    }
}

/// The state that an event leaves, but for the label of the shortcut around it.
pub open spec fn noted(o: OptionsView, st: StateView, e: Event) -> StateView {
    match e {
        Event::Start(tag) => entered(o, entering(o, st, tag), tag),
        Event::End(tag) => left(o, st, tag),
        Event::Text(t) => StateView {
            text_for_header: extended(st.text_for_header, t@),
            last_was_text_without_trailing_newline: !(t@.len() > 0 && t@.last() == '\n'),
            ..st.unmarked().without_newlines()
        },
        Event::Code(t) => StateView {
            text_for_header: extended(
                st.text_for_header,
                seq![o.code_block_token] + t@ + seq![o.code_block_token],
            ),
            ..st.unmarked()
        },
        Event::Html(_) => StateView { last_was_html: true, ..st.unmarked().without_newlines() },
        Event::Rule => StateView {
            newlines_before_start: o.newlines_after_rule,
            ..st.unmarked()
        },
        _ => st.unmarked(),
    }
}

/// The state that an event leaves.
pub open spec fn event_state(o: OptionsView, st: StateView, e: Event) -> StateView {
    if bounds_shortcut(e) {
        noted(o, st, e)
    } else {
        StateView {
            current_shortcut_text: extended(st.current_shortcut_text, label_text(o, st, e)),
            ..noted(o, st, e)
        }
    }
}

/// Whether an event can be rendered: the number of an item must leave room for the next one if
/// items are counted.
pub open spec fn is_supported(o: OptionsView, st: StateView, e: Event) -> bool {
    match e {
        Event::Start(Tag::Item) => o.increment_ordered_list_bullets && st.list_stack.len() > 0
            ==> st.list_stack.last() != Some(u64::MAX),
        _ => true,
    }
}

/// The state that `events` leave, one after the other.
pub open spec fn state_after(o: OptionsView, st: StateView, events: Seq<Event>) -> StateView
    decreases events.len(),
{
    if events.len() == 0 {
        st
    } else {
        event_state(o, state_after(o, st, events.drop_last()), events.last())
    }
}

/// The text that `events` add to the document, one after the other.
pub open spec fn rendered(o: OptionsView, st: StateView, events: Seq<Event>) -> Seq<char>
    decreases events.len(),
{
    if events.len() == 0 {
        seq![]
    } else {
        rendered(o, st, events.drop_last()) + event_text(
            o,
            state_after(o, st, events.drop_last()),
            events.last(),
        )
    }
}

/// Whether each of `events` can be rendered when its turn comes.
pub open spec fn are_supported(o: OptionsView, st: StateView, events: Seq<Event>) -> bool
    decreases events.len(),
{
    events.len() > 0 ==> {
        &&& are_supported(o, st, events.drop_last())
        &&& is_supported(o, state_after(o, st, events.drop_last()), events.last())
    }
}

/// The members of `all`, each where it comes first.
pub open spec fn distinct<A>(all: Seq<A>) -> Seq<A>
    decreases all.len(),
{
    if all.len() == 0 {
        seq![]
    } else if all.drop_last().contains(all.last()) {
        distinct(all.drop_last())
    } else {
        distinct(all.drop_last()).push(all.last())
    }
}

/// The definition of a shortcut, on a line of its own.
pub open spec fn definition(shortcut: (Seq<char>, Seq<char>, Seq<char>)) -> Seq<char> {
    "\n["@ + shortcut.0 + link_closing(shortcut.1, shortcut.2, LinkType::Shortcut)
}

/// The definitions of `shortcuts`, each once.
pub open spec fn definition_list(shortcuts: Seq<(Seq<char>, Seq<char>, Seq<char>)>) -> Seq<char> {
    distinct(shortcuts).map_values(|s| definition(s)).flatten()
}

/// The definitions of `shortcuts`, each once, behind an empty line.
pub open spec fn definitions(shortcuts: Seq<(Seq<char>, Seq<char>, Seq<char>)>) -> Seq<char> {
    if shortcuts.len() == 0 {
        seq![]
    } else {
        "\n"@ + definition_list(shortcuts)
    }
}

/// The state behind the definitions.
pub open spec fn finalized(st: StateView) -> StateView {
    StateView { shortcuts: seq![], ..st }
}

/// The whole document: the text of `events`, and the definitions of the shortcuts in it.
pub open spec fn document(o: OptionsView, events: Seq<Event>) -> Seq<char> {
    rendered(o, StateView::initial(), events) + definitions(
        state_after(o, StateView::initial(), events).shortcuts,
    )
}

} // verus!
