//! What is written of text, code, links and everything else that stands in a line.
use vstd::prelude::*;

use crate::event::{Event, LinkType, Tag};
use crate::laws::{lemma_longest_run, stands_at};
use crate::laws::terms::{lemma_breaks, lemma_padded, line_end, margin, padded, pending, run};
use crate::model::{event_text, link_closing, StateView};
use crate::options::OptionsView;
use crate::text::{last_run, longest_run, repeated};

verus! {

/// Whether `c` has to be escaped: it has a meaning in every document, or it is a part of a token.
pub open spec fn has_meaning(o: OptionsView, c: char) -> bool {
    ||| "#\\_*<>`|[]"@.contains(c)
    ||| c == o.code_block_token
    ||| c == o.list_token
    ||| c == o.emphasis_token
    ||| o.strong_token.contains(c)
}

proof fn lemma_specials(o: OptionsView, c: char)
    ensures
        o.specials().contains(c) == has_meaning(o, c),
{
    reveal_strlit("#\\_*<>`|[]");
    reveal_strlit("**");
    let base = "#\\_*<>`|[]"@;
    let all = o.specials();
    if o.has_standard_tokens() {
        assert(base[3] == '*' && base[6] == '`');
        if o.strong_token.contains(c) {
            assert(c == '*');
        }
    } else {
        let tokens = seq![o.code_block_token, o.list_token, o.emphasis_token];
        assert(all == base + tokens + o.strong_token);
        if base.contains(c) {
            let i = choose|i: int| 0 <= i < base.len() && base[i] == c;
            assert(all[i] == c);
        }
        assert(all[10] == o.code_block_token && all[11] == o.list_token && all[12]
            == o.emphasis_token);
        if o.strong_token.contains(c) {
            let i = choose|i: int| 0 <= i < o.strong_token.len() && o.strong_token[i] == c;
            assert(all[13 + i] == c);
        }
        if all.contains(c) {
            let i = choose|i: int| 0 <= i < all.len() && all[i] == c;
            if i < 10 {
                assert(base[i] == c);
            } else if i >= 13 {
                assert(o.strong_token[i - 13] == c);
            }
        }
    }
}

/// The special characters are those that have a meaning in every document, and the tokens: once
/// more, in order, if they are not the default ones.
pub proof fn law_special_characters_have_a_meaning(o: OptionsView)
    ensures
        forall|c: char| #[trigger] o.specials().contains(c) <==> has_meaning(o, c),
        o.code_block_token == '`' && o.list_token == '*' && o.emphasis_token == '*'
            && o.strong_token == "**"@ ==> o.specials() == "#\\_*<>`|[]"@,
        !(o.code_block_token == '`' && o.list_token == '*' && o.emphasis_token == '*'
            && o.strong_token == "**"@) ==> o.specials() == "#\\_*<>`|[]"@ + seq![
            o.code_block_token,
            o.list_token,
            o.emphasis_token,
        ] + o.strong_token,
        o.has_standard_tokens() <==> o.code_block_token == '`' && o.list_token == '*'
            && o.emphasis_token == '*' && o.strong_token == "**"@,
{
    assert forall|c: char| #[trigger] o.specials().contains(c) <==> has_meaning(o, c) by {
        lemma_specials(o, c);
    }
}

/// Text is written whole, line by line, behind the line breaks that are due. A backslash stands
/// before it if its first character has a meaning, but not in a code block.
pub proof fn law_text_is_written_whole(o: OptionsView, st: StateView, t: &str)
    ensures
        event_text(o, st, Event::Text(t)) == pending(st) + padded(
            if !st.is_in_code_block && t@.len() > 0 && has_meaning(o, t@[0]) {
                seq!['\\'] + t@
            } else {
                t@
            },
            margin(st),
        ),
{
    lemma_breaks(margin(st), st.newlines_before_start);
    if t@.len() > 0 {
        lemma_specials(o, t@[0]);
    }
    let shown = if !st.is_in_code_block && t@.len() > 0 && has_meaning(o, t@[0]) {
        seq!['\\'] + t@
    } else {
        t@
    };
    lemma_padded(shown, margin(st));
    assert(event_text(o, st, Event::Text(t)) =~= pending(st) + padded(shown, margin(st)));
}

/// HTML is written as it stands, line by line, behind the line breaks that are due.
pub proof fn law_html_is_written_whole(o: OptionsView, st: StateView, t: &str)
    ensures
        event_text(o, st, Event::Html(t)) == pending(st) + padded(t@, margin(st)),
{
    lemma_breaks(margin(st), st.newlines_before_start);
    lemma_padded(t@, margin(st));
    assert(event_text(o, st, Event::Html(t)) =~= pending(st) + padded(t@, margin(st)));
}

/// A soft break is a line break, and a hard break is one behind two spaces.
pub proof fn law_breaks_break_the_line(o: OptionsView, st: StateView)
    ensures
        event_text(o, st, Event::SoftBreak) == line_end(st),
        !st.last_was_html ==> event_text(o, st, Event::HardBreak) == seq![' ', ' '] + line_end(st),
{
    reveal_strlit("  \n");
    assert(event_text(o, st, Event::SoftBreak) =~= line_end(st));
    if !st.last_was_html {
        assert(event_text(o, st, Event::HardBreak) =~= seq![' ', ' '] + line_end(st));
    }
}

/// The box before a task is checked if and only if the task is done.
pub proof fn law_tasks_are_checked(o: OptionsView, st: StateView)
    requires
        !st.last_was_html,
    ensures
        event_text(o, st, Event::TaskListMarker(true)) == "[x] "@,
        event_text(o, st, Event::TaskListMarker(false)) == "[ ] "@,
{
    reveal_strlit("[x] ");
    reveal_strlit("[ ] ");
    reveal_strlit("[");
    reveal_strlit("x");
    reveal_strlit(" ");
    reveal_strlit("] ");
    assert(event_text(o, st, Event::TaskListMarker(true)) =~= "[x] "@);
    assert(event_text(o, st, Event::TaskListMarker(false)) =~= "[ ] "@);
}

/// Emphasized, strong and crossed out text stands between two equal tokens.
pub proof fn law_emphasis_stands_between_tokens(o: OptionsView, st: StateView)
    ensures
        !st.last_was_html ==> event_text(o, st, Event::Start(Tag::Emphasis)) == pending(st) + seq![
            o.emphasis_token,
        ],
        event_text(o, st, Event::End(Tag::Emphasis)) == seq![o.emphasis_token],
        !st.last_was_html ==> event_text(o, st, Event::Start(Tag::Strong)) == pending(st)
            + o.strong_token,
        event_text(o, st, Event::End(Tag::Strong)) == o.strong_token,
        !st.last_was_html ==> event_text(o, st, Event::Start(Tag::Strikethrough)) == pending(st)
            + "~~"@,
        event_text(o, st, Event::End(Tag::Strikethrough)) == "~~"@,
{
    lemma_breaks(margin(st), st.newlines_before_start);
    if !st.last_was_html {
        assert(event_text(o, st, Event::Start(Tag::Emphasis)) =~= pending(st) + seq![
            o.emphasis_token,
        ]);
        assert(event_text(o, st, Event::Start(Tag::Strong)) =~= pending(st) + o.strong_token);
        assert(event_text(o, st, Event::Start(Tag::Strikethrough)) =~= pending(st) + "~~"@);
    }
    assert(event_text(o, st, Event::End(Tag::Emphasis)) =~= seq![o.emphasis_token]);
    assert(event_text(o, st, Event::End(Tag::Strong)) =~= o.strong_token);
    assert(event_text(o, st, Event::End(Tag::Strikethrough)) =~= "~~"@);
}

/// Whether the longest run of `c` in `t` has the length `n`: there is a run of `n` in it, and none
/// that is longer.
pub open spec fn is_longest_run(t: Seq<char>, c: char, n: nat) -> bool {
    &&& exists|i: int| #[trigger] stands_at(run(c, n), t, i)
    &&& forall|i: int| !#[trigger] stands_at(run(c, n + 1), t, i)
}

proof fn lemma_is_longest_run(t: Seq<char>, c: char, n: nat)
    requires
        is_longest_run(t, c, n),
    ensures
        n == longest_run(t, c),
{
    let m = longest_run(t, c);
    lemma_longest_run(t, c);
    let k = lemma_longest_run_occurs(t, c);
    let i = choose|i: int| #[trigger] stands_at(run(c, n), t, i);
    if n > m {
        assert(t.subrange(i, i + m + 1) =~= t.subrange(i, i + n).take(m as int + 1));
        assert(t.subrange(i, i + m + 1) =~= repeated(c, m + 1));
        assert(stands_at(repeated(c, m + 1), t, i));
    }
    if n < m {
        assert(t.subrange(k, k + n + 1) =~= t.subrange(k, k + m).take(n as int + 1));
        assert(t.subrange(k, k + n + 1) =~= run(c, n + 1));
        assert(stands_at(run(c, n + 1), t, k));
    }
}

/// Inline code without tokens in it stands between two tokens. Code with tokens in it stands
/// between two equal runs of them, with a space on both sides: with the default options they are
/// one longer than the longest run in the code, and otherwise two tokens.
pub proof fn law_code_stands_between_tokens(o: OptionsView, st: StateView, t: &str, n: nat)
    requires
        !st.last_was_html,
        o.is_standard() ==> is_longest_run(t@, o.code_block_token, n),
    ensures
        !t@.contains(o.code_block_token) ==> event_text(o, st, Event::Code(t)) == seq![
            o.code_block_token,
        ] + padded(t@, margin(st)) + seq![o.code_block_token],
        t@.contains(o.code_block_token) && !o.is_standard() ==> event_text(o, st, Event::Code(t))
            == seq![o.code_block_token, o.code_block_token, ' '] + padded(t@, margin(st)) + seq![
            ' ',
            o.code_block_token,
            o.code_block_token,
        ],
        t@.contains(o.code_block_token) && o.is_standard() ==> event_text(o, st, Event::Code(t))
            == run(o.code_block_token, n + 1).push(' ') + padded(t@, margin(st)) + (seq![' '] + run(
            o.code_block_token,
            n + 1,
        )),
{
    let token = o.code_block_token;
    let whole = event_text(o, st, Event::Code(t));
    let shown = padded(t@, margin(st));
    lemma_padded(t@, margin(st));
    if !t@.contains(token) {
        assert(whole =~= seq![token] + shown + seq![token]);
    } else if !o.is_standard() {
        assert(run(token, 2) =~= seq![token, token]);
        assert(whole =~= seq![token, token, ' '] + shown + seq![' ', token, token]);
    } else {
        lemma_is_longest_run(t@, token, n);
        assert(whole =~= run(token, n + 1).push(' ') + shown + (seq![' '] + run(token, n + 1)));
    }
}

proof fn lemma_longest_run_occurs(t: Seq<char>, c: char) -> (i: int)
    ensures
        stands_at(run(c, longest_run(t, c)), t, i),
    decreases t.len(),
{
    let n = longest_run(t, c);
    if t.len() == 0 {
        assert(t.subrange(0, 0) =~= run(c, 0));
        0
    } else if longest_run(t.drop_last(), c) < last_run(t, c) {
        lemma_last_run_occurs(t, c);
        t.len() - n
    } else {
        let i = lemma_longest_run_occurs(t.drop_last(), c);
        assert(t.subrange(i, i + n) =~= t.drop_last().subrange(i, i + n));
        i
    }
}

proof fn lemma_last_run_occurs(t: Seq<char>, c: char)
    ensures
        last_run(t, c) <= t.len(),
        t.subrange(t.len() - last_run(t, c), t.len() as int) == run(
            c,
            last_run(t, c),
        ),
    decreases t.len(),
{
    let n = last_run(t, c);
    if n > 0 {
        let before = t.drop_last();
        lemma_last_run_occurs(before, c);
        assert(t.subrange(t.len() - n, t.len() as int) =~= before.subrange(
            before.len() - (n - 1),
            before.len() as int,
        ).push(c));
        assert(run(c, n) =~= run(c, (n - 1) as nat).push(c));
    } else {
        assert(t.subrange(t.len() as int, t.len() as int) =~= run(c, 0));
    }
}

/// Where a link leads: its destination, in angle brackets if there is a space in it, and its title,
/// if it has one, in quotes behind a space.
pub open spec fn target(uri: Seq<char>, title: Seq<char>) -> Seq<char> {
    (if uri.contains(' ') {
        seq!['<'] + uri + seq!['>']
    } else {
        uri
    }) + (if title.len() > 0 {
        seq![' ', '"'] + title + seq!['"']
    } else {
        seq![]
    })
}

pub(crate) proof fn lemma_link_closing(uri: Seq<char>, title: Seq<char>, link_type: LinkType)
    ensures
        link_type == LinkType::Shortcut ==> link_closing(uri, title, link_type) == seq![
            ']',
            ':',
            ' ',
        ] + target(uri, title),
        link_type != LinkType::Shortcut ==> link_closing(uri, title, link_type) == seq![']', '(']
            + target(uri, title) + seq![')'],
{
    reveal_strlit("]");
    reveal_strlit(": ");
    reveal_strlit("(");
    reveal_strlit("<");
    reveal_strlit(">");
    reveal_strlit(" \"");
    reveal_strlit("\"");
    if link_type == LinkType::Shortcut {
        assert(link_closing(uri, title, link_type) =~= seq![']', ':', ' '] + target(uri, title));
    } else {
        assert(link_closing(uri, title, link_type) =~= seq![']', '('] + target(uri, title) + seq![
            ')',
        ]);
    }
}

/// Links to addresses that stand for themselves are written in angle brackets, shortcuts in square
/// brackets, and all other links in square brackets with the destination and the title behind them.
pub proof fn law_links_lead_to_their_destination(
    o: OptionsView,
    st: StateView,
    link_type: LinkType,
    uri: &str,
    title: &str,
)
    ensures
        ({
            let begin = event_text(o, st, Event::Start(Tag::Link(link_type, uri, title)));
            let end = event_text(o, st, Event::End(Tag::Link(link_type, uri, title)));
            match link_type {
                LinkType::Autolink | LinkType::Email => {
                    &&& !st.last_was_html ==> begin == pending(st) + seq!['<']
                    &&& end == seq!['>']
                },
                LinkType::Shortcut => {
                    &&& !st.last_was_html ==> begin == pending(st) + seq!['[']
                    &&& end == seq![']']
                },
                _ => {
                    &&& !st.last_was_html ==> begin == pending(st) + seq!['[']
                    &&& end == padded(
                        seq![']', '('] + target(uri@, title@) + seq![')'],
                        margin(st),
                    )
                },
            }
        }),
{
    let begin = event_text(o, st, Event::Start(Tag::Link(link_type, uri, title)));
    let end = event_text(o, st, Event::End(Tag::Link(link_type, uri, title)));
    lemma_breaks(margin(st), st.newlines_before_start);
    lemma_link_closing(uri@, title@, LinkType::Inline);
    let inline = link_closing(uri@, title@, LinkType::Inline);
    lemma_padded(inline, margin(st));
    match link_type {
        LinkType::Autolink | LinkType::Email => {
            if !st.last_was_html {
                assert(begin =~= pending(st) + seq!['<']);
            }
            assert(end =~= seq!['>']);
        },
        LinkType::Shortcut => {
            if !st.last_was_html {
                assert(begin =~= pending(st) + seq!['[']);
            }
            assert(end =~= seq![']']);
        },
        _ => {
            if !st.last_was_html {
                assert(begin =~= pending(st) + seq!['[']);
            }
            assert(end =~= padded(inline, margin(st)));
        },
    }
}

/// Images are written in square brackets behind an exclamation mark, with the destination and the
/// title behind them, whatever their form was.
pub proof fn law_images_lead_to_their_destination(
    o: OptionsView,
    st: StateView,
    link_type: LinkType,
    uri: &str,
    title: &str,
)
    ensures
        !st.last_was_html ==> event_text(o, st, Event::Start(Tag::Image(link_type, uri, title)))
            == pending(st) + seq!['!', '['],
        event_text(o, st, Event::End(Tag::Image(link_type, uri, title))) == padded(
            seq![']', '('] + target(uri@, title@) + seq![')'],
            margin(st),
        ),
{
    reveal_strlit("![");
    lemma_breaks(margin(st), st.newlines_before_start);
    lemma_link_closing(uri@, title@, LinkType::Inline);
    let inline = link_closing(uri@, title@, LinkType::Inline);
    lemma_padded(inline, margin(st));
    if !st.last_was_html {
        assert(event_text(o, st, Event::Start(Tag::Image(link_type, uri, title))) =~= pending(st)
            + seq!['!', '[']);
    }
    assert(event_text(o, st, Event::End(Tag::Image(link_type, uri, title))) =~= padded(
        inline,
        margin(st),
    ));
}

} // verus!
