//! What is known between two events.
use vstd::prelude::*;
use vstd::string::*;

use crate::event::{Alignment, LinkType};
use crate::laws::{law_text_on_one_line_is_kept, law_text_without_padding_is_kept};
use crate::lines::{lemma_reflowed_sum, put_reflowed};
use crate::model::{
    definition, definition_list, definitions, distinct, finalized, link_closing, link_destination,
    link_title, reflowed, StateView,
};
use crate::padding::Padding;
use crate::text::contains_char;
use crate::write::{
    emits, group_sends, lemma_sends_prefix, put_char, put_str, sends, stops_at_once, Write,
};

verus! {

/// The state of the [`cmark_resume()`](crate::cmark_resume) and
/// [`cmark_resume_with_options()`](crate::cmark_resume_with_options) functions.
/// This does not only allow introspection, but enables the user
/// to halt the serialization at any time, and resume it later.
#[derive(Clone, Debug, PartialEq, Eq, PartialOrd, Ord, Hash)]
pub struct State<'a> {
    /// The amount of newlines to insert after `Event::Start(...)`
    pub newlines_before_start: usize,
    /// The lists and their types for which we have seen a `Event::Start(List(...))` tag
    pub list_stack: Vec<Option<u64>>,
    /// The computed padding and prefix to print after each newline.
    /// This changes with the level of `BlockQuote` and `List` events.
    pub padding: Padding<'a>,
    /// Keeps the current table alignments, if we are currently serializing a table.
    pub table_alignments: Vec<Alignment>,
    /// Keeps the current table headers, if we are currently serializing a table.
    pub table_headers: Vec<String>,
    /// The last seen text when serializing a header
    pub text_for_header: Option<String>,
    /// Is set while we are handling text in a code block
    pub is_in_code_block: bool,
    /// True if the last event was html. Used to inject additional newlines to support markdown
    /// inside of HTML tags.
    pub last_was_html: bool,
    /// True if the last event was text and the text does not have trailing newline. Used to
    /// inject additional newlines before code block end fence.
    pub last_was_text_without_trailing_newline: bool,
    /// Keeps track of the last seen shortcut/link
    pub current_shortcut_text: Option<String>,
    /// A list of shortcuts seen so far for later emission
    pub shortcuts: Vec<(String, String, String)>,
}

impl<'a> View for State<'a> {
    type V = StateView;

    open spec fn view(&self) -> StateView {
        StateView {
            newlines_before_start: self.newlines_before_start as nat,
            list_stack: self.list_stack@,
            padding: self.padding@,
            table_alignments: self.table_alignments@,
            table_headers: self.table_headers.deep_view(),
            text_for_header: self.text_for_header.deep_view(),
            is_in_code_block: self.is_in_code_block,
            last_was_html: self.last_was_html,
            last_was_text_without_trailing_newline: self.last_was_text_without_trailing_newline,
            current_shortcut_text: self.current_shortcut_text.deep_view(),
            shortcuts: self.shortcuts.deep_view(),
        }
    }
}

impl<'a> Default for State<'a> {
    fn default() -> (r: Self)
        ensures
            r@ == StateView::initial(),
    {
        let r = State {
            newlines_before_start: 0,
            list_stack: Vec::new(),
            padding: Padding::default(),
            table_alignments: Vec::new(),
            table_headers: Vec::new(),
            text_for_header: None,
            is_in_code_block: false,
            last_was_html: false,
            last_was_text_without_trailing_newline: false,
            current_shortcut_text: None,
            shortcuts: Vec::new(),
        };
        assert(r@ =~= StateView::initial());
        r
    }
}

/// The parts of what closes a link, each with `start` at the beginning of its lines.
proof fn lemma_link_closing_parts(
    uri: Seq<char>,
    title: Seq<char>,
    link_type: LinkType,
    start: Seq<char>,
)
    ensures
        reflowed(link_destination(uri), start) == (if uri.contains(' ') {
            "<"@ + reflowed(uri, start) + ">"@
        } else {
            reflowed(uri, start)
        }),
        reflowed(link_title(title), start) == (if title.len() > 0 {
            " \""@ + reflowed(title, start) + "\""@
        } else {
            seq![]
        }),
        reflowed(link_closing(uri, title, link_type), start) == (if link_type
            == LinkType::Shortcut {
            "]"@ + ": "@ + reflowed(link_destination(uri), start) + reflowed(
                link_title(title),
                start,
            )
        } else {
            "]"@ + "("@ + reflowed(link_destination(uri), start) + reflowed(
                link_title(title),
                start,
            ) + seq![')']
        }),
{
    reveal_strlit("]");
    reveal_strlit(": ");
    reveal_strlit("(");
    reveal_strlit("<");
    reveal_strlit(">");
    reveal_strlit(" \"");
    reveal_strlit("\"");
    law_text_on_one_line_is_kept("]"@, start);
    law_text_on_one_line_is_kept(": "@, start);
    law_text_on_one_line_is_kept("("@, start);
    law_text_on_one_line_is_kept("<"@, start);
    law_text_on_one_line_is_kept(">"@, start);
    law_text_on_one_line_is_kept(" \""@, start);
    law_text_on_one_line_is_kept("\""@, start);
    law_text_on_one_line_is_kept(seq![')'], start);
    let destination = link_destination(uri);
    let shown = link_title(title);
    lemma_reflowed_sum("<"@, uri, start);
    lemma_reflowed_sum("<"@ + uri, ">"@, start);
    lemma_reflowed_sum(" \""@, title, start);
    lemma_reflowed_sum(" \""@ + title, "\""@, start);
    let separator = if link_type == LinkType::Shortcut {
        ": "@
    } else {
        "("@
    };
    lemma_reflowed_sum("]"@, separator, start);
    lemma_reflowed_sum("]"@ + separator, destination, start);
    lemma_reflowed_sum("]"@ + separator + destination, shown, start);
    lemma_reflowed_sum("]"@ + separator + destination + shown, seq![')'], start);
}

/// Writes the destination of a link.
fn write_destination<W: Write>(f: &mut W, uri: &str, p: &Padding<'_>) -> (r: Result<
    (),
    std::fmt::Error,
>)
    ensures
        sends(*old(f), *final(f), r is Ok, reflowed(link_destination(uri@), p@.line_start())),
        stops_at_once(*old(f), *final(f), r is Ok),
{
    broadcast use group_sends;

    proof {
        lemma_link_closing_parts(uri@, seq![], LinkType::Inline, p@.line_start());
    }
    if contains_char(uri, ' ') {
        put_str(f, "<")?;
        put_reflowed(f, uri, p)?;
        put_str(f, ">")
    } else {
        put_reflowed(f, uri, p)
    }
}

/// Writes the title of a link.
fn write_title<W: Write>(f: &mut W, title: &str, p: &Padding<'_>) -> (r: Result<
    (),
    std::fmt::Error,
>)
    ensures
        sends(*old(f), *final(f), r is Ok, reflowed(link_title(title@), p@.line_start())),
        stops_at_once(*old(f), *final(f), r is Ok),
{
    broadcast use group_sends;

    proof {
        lemma_link_closing_parts(seq![], title@, LinkType::Inline, p@.line_start());
    }
    if !title.is_empty() {
        put_str(f, " \"")?;
        put_reflowed(f, title, p)?;
        put_str(f, "\"")
    } else {
        Ok(())
    }
}

/// Writes what closes a link, an image or the definition of a shortcut, with the padding at the
/// beginning of each of its lines but the first.
pub(crate) fn close_link<W: Write>(
    uri: &str,
    title: &str,
    f: &mut W,
    link_type: LinkType,
    p: &Padding<'_>,
) -> (r: Result<(), std::fmt::Error>)
    ensures
        sends(
            *old(f),
            *final(f),
            r is Ok,
            reflowed(link_closing(uri@, title@, link_type), p@.line_start()),
        ),
        stops_at_once(*old(f), *final(f), r is Ok),
{
    broadcast use group_sends;

    proof {
        lemma_link_closing_parts(uri@, title@, link_type, p@.line_start());
    }
    let separator = match link_type {
        LinkType::Shortcut => ": ",
        _ => "(",
    };
    put_str(f, "]")?;
    put_str(f, separator)?;
    write_destination(f, uri, p)?;
    write_title(f, title, p)?;
    if link_type != LinkType::Shortcut {
        put_char(f, ')')?;
    }
    Ok(())
}

/// Tells whether the first `n` of `shortcuts` hold `shortcuts[n]`.
fn is_repeated(shortcuts: &Vec<(String, String, String)>, n: usize) -> (r: bool)
    requires
        n < shortcuts.len(),
    ensures
        r == shortcuts.deep_view().take(n as int).contains(shortcuts.deep_view()[n as int]),
{
    let ghost all = shortcuts.deep_view();
    let mut i: usize = 0;
    while i < n
        invariant
            i <= n < shortcuts.len(),
            all == shortcuts.deep_view(),
            forall|j: int| 0 <= j < i ==> all[j] != all[n as int],
        decreases n - i,
    {
        if shortcuts[i].0 == shortcuts[n].0 && shortcuts[i].1 == shortcuts[n].1 && shortcuts[i].2
            == shortcuts[n].2 {
            assert(all.take(n as int)[i as int] == all[n as int]);
            return true;
        }
        i += 1;
    }
    false
}

proof fn lemma_definition_list_step(all: Seq<(Seq<char>, Seq<char>, Seq<char>)>, i: int)
    requires
        0 <= i < all.len(),
    ensures
        definition_list(all.take(i + 1)) == definition_list(all.take(i)) + (if all.take(i).contains(
            all[i],
        ) {
            seq![]
        } else {
            definition(all[i])
        }),
{
    let before = all.take(i);
    assert(all.take(i + 1).drop_last() =~= before);
    if before.contains(all[i]) {
        assert(definition_list(before) =~= definition_list(before) + seq![]);
    } else {
        let texts = distinct(before).map_values(|s| definition(s));
        texts.lemma_flatten_push(definition(all[i]));
        assert(distinct(all.take(i + 1)).map_values(|s| definition(s)) =~= texts.push(
            definition(all[i]),
        ));
    }
}

proof fn lemma_definition_list_prefix(all: Seq<(Seq<char>, Seq<char>, Seq<char>)>, i: int)
    requires
        0 <= i <= all.len(),
    ensures
        definition_list(all.take(i)).is_prefix_of(definition_list(all)),
    decreases all.len() - i,
{
    if i == all.len() {
        assert(all.take(i) =~= all);
    } else {
        lemma_definition_list_step(all, i);
        lemma_definition_list_prefix(all, i + 1);
    }
}

/// Writes the definition of a shortcut.
fn write_definition<W: Write>(f: &mut W, shortcut: &(String, String, String)) -> (r: Result<
    (),
    std::fmt::Error,
>)
    ensures
        sends(*old(f), *final(f), r is Ok, definition(shortcut.deep_view())),
        stops_at_once(*old(f), *final(f), r is Ok),
{
    broadcast use group_sends;

    let none = Padding::default();
    proof {
        assert(none@.line_start() =~= seq![]);
        law_text_without_padding_is_kept(
            link_closing(shortcut.1@, shortcut.2@, LinkType::Shortcut),
        );
    }
    put_str(f, "\n[")?;
    put_str(f, shortcut.0.as_str())?;
    close_link(shortcut.1.as_str(), shortcut.2.as_str(), f, LinkType::Shortcut, &none)
}

/// Writes the definitions of `shortcuts`, each once.
fn write_definitions<W: Write>(f: &mut W, shortcuts: &Vec<(String, String, String)>) -> (r: Result<
    (),
    std::fmt::Error,
>)
    ensures
        sends(*old(f), *final(f), r is Ok, definition_list(shortcuts.deep_view())),
        stops_at_once(*old(f), *final(f), r is Ok),
{
    broadcast use group_sends;

    let ghost all = shortcuts.deep_view();
    assert(definition_list(all.take(0)) =~= Seq::<char>::empty());
    let mut i: usize = 0;
    while i < shortcuts.len()
        invariant
            i <= shortcuts.len(),
            all == shortcuts.deep_view(),
            f.refusals() == old(f).refusals(),
            sends(*old(f), *f, true, definition_list(all.take(i as int))),
        decreases shortcuts.len() - i,
    {
        broadcast use group_sends;

        proof {
            lemma_definition_list_step(all, i as int);
        }
        if !is_repeated(shortcuts, i) {
            let r = write_definition(f, &shortcuts[i]);
            if r.is_err() {
                proof {
                    lemma_definition_list_prefix(all, i + 1);
                    lemma_sends_prefix(
                        *old(f),
                        *f,
                        definition_list(all.take(i + 1)),
                        definition_list(all),
                    );
                }
                return r;
            }
        } else {
            assert(definition_list(all.take(i + 1)) =~= definition_list(all.take(i as int)));
        }
        i += 1;
    }
    assert(all.take(i as int) =~= all);
    Ok(())
}

/// What holds after the definitions of `shortcuts` were written: nothing was handed to the sink if
/// there are none, and nothing after it refused something. `ok` says whether it took everything.
pub open spec fn finalizes<W: Write>(
    before: W,
    after: W,
    ok: bool,
    shortcuts: Seq<(Seq<char>, Seq<char>, Seq<char>)>,
) -> bool {
    &&& emits(before, after, ok, definitions(shortcuts))
    &&& stops_at_once(before, after, ok)
    &&& shortcuts.len() == 0 ==> ok && after == before
}

impl<'a> State<'a> {
    /// Writes the definitions of the shortcuts seen so far, each of them once, and forgets them.
    pub fn finalize<W: Write>(self, formatter: &mut W) -> (r: Result<Self, std::fmt::Error>)
        ensures
            finalizes(*old(formatter), *final(formatter), r is Ok, self@.shortcuts),
            self@.shortcuts.len() == 0 ==> r is Ok && *final(formatter) == *old(formatter),
            r matches Ok(s) ==> s@ == finalized(self@),
    {
        broadcast use group_sends;

        proof {
            reveal(sends);
        }
        let mut state = self;
        if state.shortcuts.is_empty() {
            assert(state@ =~= finalized(self@));
            return Ok(state);
        }
        put_str(formatter, "\n")?;
        write_definitions(formatter, &state.shortcuts)?;
        state.shortcuts.clear();
        assert(state@ =~= finalized(self@));
        Ok(state)
    }
}

} // verus!
