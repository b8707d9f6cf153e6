//! Where elements begin and end.
use std::borrow::Cow;

use vstd::prelude::*;
use vstd::string::*;

use crate::event::{Alignment, CodeBlockKind, Event, HeadingLevel, LinkType, Tag};
use crate::laws::law_text_on_one_line_is_kept;
use crate::lines::{break_line, lemma_reflowed_sum, next_line, put_reflowed};
use crate::model::{
    cell_header, class_list, closing, column_count, column_rule, column_rules, entered, entering,
    fence, header_rule, heading_attributes, is_supported, item_marker, item_padding, left, opening,
    rank, reflowed,
};
use crate::options::{Options, OptionsView};
use crate::padding::Padding;
use crate::state::{close_link, State};
use crate::text::{byte_length, decimal, make_blanks, repeated};
use crate::write::{
    breaks_off, group_sends, lemma_breaks_off_behind, lemma_breaks_off_line, lemma_sends_nothing,
    lemma_sends_prefix, lemma_sends_then, put_char, put_str, sends, stops_at_once, Write,
};

verus! {

/// Writes the fence of a code block.
fn write_fence<W: Write>(f: &mut W, options: &Options<'_>) -> (r: Result<(), std::fmt::Error>)
    ensures
        sends(*old(f), *final(f), r is Ok, fence(options@)),
        stops_at_once(*old(f), *final(f), r is Ok),
        options.code_block_token_count == 0 ==> r is Ok,
{
    broadcast use group_sends;

    let ghost all = fence(options@);
    let ghost token = options.code_block_token;
    let mut i: usize = 0;
    assert(repeated(token, 0) =~= Seq::<char>::empty());
    while i < options.code_block_token_count
        invariant
            i <= options.code_block_token_count,
            token == options.code_block_token,
            all == fence(options@),
            f.refusals() == old(f).refusals(),
            sends(*old(f), *f, true, repeated(token, i as nat)),
        decreases options.code_block_token_count - i,
    {
        broadcast use group_sends;

        let r = put_char(f, options.code_block_token);
        assert(repeated(token, i as nat) + seq![token] =~= repeated(token, (i + 1) as nat));
        if r.is_err() {
            proof {
                lemma_sends_prefix(*old(f), *f, repeated(token, (i + 1) as nat), all);
            }
            return r;
        }
        i += 1;
    }
    Ok(())
}

/// Writes the mark of a heading.
fn write_heading_mark<W: Write>(f: &mut W, level: HeadingLevel) -> (r: Result<(), std::fmt::Error>)
    ensures
        sends(*old(f), *final(f), r is Ok, repeated('#', rank(level)) + seq![' ']),
        stops_at_once(*old(f), *final(f), r is Ok),
{
    broadcast use group_sends;

    proof {
        reveal_strlit("#");
        reveal_strlit("##");
        reveal_strlit("###");
        reveal_strlit("####");
        reveal_strlit("#####");
        reveal_strlit("######");
    }
    let mark = match level {
        HeadingLevel::H1 => "#",
        HeadingLevel::H2 => "##",
        HeadingLevel::H3 => "###",
        HeadingLevel::H4 => "####",
        HeadingLevel::H5 => "#####",
        HeadingLevel::H6 => "######",
    };
    assert(mark@ =~= repeated('#', rank(level)));
    put_str(f, mark)?;
    put_char(f, ' ')
}

/// Writes the marker of an item in the innermost list.
fn write_item_marker<W: Write>(f: &mut W, lists: &Vec<Option<u64>>, options: &Options<'_>) -> (r:
    Result<(), std::fmt::Error>)
    ensures
        sends(*old(f), *final(f), r is Ok, item_marker(options@, lists@)),
        stops_at_once(*old(f), *final(f), r is Ok),
{
    broadcast use group_sends;

    if lists.len() == 0 {
        return Ok(());
    }
    match lists[lists.len() - 1] {
        Some(n) => {
            put_str(f, decimal(n).as_str())?;
            put_char(f, options.ordered_list_token)?;
            put_str(f, " ")
        },
        None => {
            put_char(f, options.list_token)?;
            put_str(f, " ")
        },
    }
}

/// Writes what opens a code block.
fn write_code_block_opening<W: Write>(
    f: &mut W,
    state: &State<'_>,
    kind: &CodeBlockKind<'_>,
    options: &Options<'_>,
) -> (r: Result<(), std::fmt::Error>)
    ensures
        sends(*old(f), *final(f), r is Ok, opening(options@, state@, Tag::CodeBlock(*kind))),
        !(kind is Indented) ==> stops_at_once(*old(f), *final(f), r is Ok),
        kind is Indented && r is Err ==> breaks_off(
            *old(f),
            *final(f),
            fence(options@),
            seq!['\n'],
            state@.padding,
        ),
{
    broadcast use group_sends;

    match kind {
        CodeBlockKind::Indented => {
            let r = write_fence(f, options);
            if r.is_err() {
                proof {
                    reveal(sends);
                }
                return r;
            }
            let ghost between = *f;
            let r = break_line(f, &state.padding);
            if r.is_err() {
                proof {
                    let p = state@.padding;
                    lemma_breaks_off_line(between, *f, seq!['\n'], p);
                    lemma_breaks_off_behind(
                        *old(f),
                        between,
                        *f,
                        fence(options@),
                        seq![],
                        seq!['\n'],
                        p,
                    );
                    assert(fence(options@) + seq![] =~= fence(options@));
                }
            }
            r
        },
        CodeBlockKind::Fenced(info) => {
            if state.newlines_before_start == 0 {
                next_line(f, &state.padding)?;
            }
            write_fence(f, options)?;
            put_reflowed(f, info, &state.padding)?;
            next_line(f, &state.padding)
        },
    }
}

/// Writes what opens an element, behind the line breaks.
pub(crate) fn write_opening<W: Write>(
    f: &mut W,
    state: &State<'_>,
    tag: &Tag<'_>,
    options: &Options<'_>,
) -> (r: Result<(), std::fmt::Error>)
    ensures
        sends(*old(f), *final(f), r is Ok, opening(options@, state@, *tag)),
        !(tag matches Tag::CodeBlock(CodeBlockKind::Indented)) ==> stops_at_once(
            *old(f),
            *final(f),
            r is Ok,
        ),
        (tag matches Tag::CodeBlock(CodeBlockKind::Indented)) && r is Err ==> breaks_off(
            *old(f),
            *final(f),
            fence(options@),
            seq!['\n'],
            state@.padding,
        ),
{
    broadcast use group_sends;

    match tag {
        Tag::Item => write_item_marker(f, &state.list_stack, options),
        Tag::Table(_) => Ok(()),
        Tag::TableHead => Ok(()),
        Tag::TableRow => Ok(()),
        Tag::TableCell => put_char(f, '|'),
        Tag::Link(link_type, _, _) => match link_type {
            LinkType::Autolink | LinkType::Email => put_char(f, '<'),
            _ => put_char(f, '['),
        },
        Tag::Image(_, _, _) => put_str(f, "!["),
        Tag::Emphasis => put_char(f, options.emphasis_token),
        Tag::Strong => put_str(f, options.strong_token),
        Tag::FootnoteDefinition(name) => {
            put_str(f, "[^")?;
            put_reflowed(f, name, &state.padding)?;
            put_str(f, "]: ")
        },
        Tag::Paragraph => Ok(()),
        Tag::Heading(level, _, _) => write_heading_mark(f, *level),
        Tag::BlockQuote => put_str(f, options.blockquote),
        Tag::CodeBlock(kind) => write_code_block_opening(f, state, kind, options),
        Tag::List(_) => Ok(()),
        Tag::Strikethrough => put_str(f, "~~"),
    }
}

/// Returns how many line breaks are due before an element.
pub(crate) fn newlines_before(state: &State<'_>, tag: &Tag<'_>, options: &Options<'_>) -> (n: usize)
    ensures
        n == entering(options@, state@, *tag).newlines_before_start,
{
    if let Tag::List(_) = tag {
        let last_was_list = !state.padding.last_padding_was(options.blockquote);
        if last_was_list && state.list_stack.len() > 0 && state.newlines_before_start
            < options.newlines_after_rest {
            return options.newlines_after_rest;
        }
    }
    state.newlines_before_start
}

/// Notes that an element begins, before the line breaks are written.
pub(crate) fn prepare(state: &mut State<'_>, tag: &Tag<'_>, options: &Options<'_>)
    ensures
        final(state)@ == entering(options@, old(state)@, *tag),
{
    state.newlines_before_start = newlines_before(state, tag, options);
    if let Tag::List(first) = tag {
        state.list_stack.push(*first);
    }
    assert(state@ =~= entering(options@, old(state)@, *tag));
}

/// Returns the padding of the lines of an item.
fn padding_of(list: Option<u64>) -> (r: Cow<'static, str>)
    ensures
        r@ == item_padding(list),
{
    match list {
        None => Cow::Borrowed("  "),
        Some(n) => {
            let mut blanks = make_blanks(decimal(n).as_str().unicode_len());
            blanks.append("  ");
            proof {
                reveal_strlit("  ");
            }
            assert(blanks@ =~= item_padding(list));
            Cow::Owned(blanks)
        },
    }
}

/// Notes that an element has begun.
pub(crate) fn enter(state: &mut State<'_>, tag: &Tag<'_>, options: &Options<'_>)
    requires
        is_supported(options@, old(state)@, Event::Start(*tag)),
    ensures
        final(state)@ == entered(options@, old(state)@, *tag),
{
    state.last_was_html = false;
    state.last_was_text_without_trailing_newline = false;
    state.newlines_before_start = 0;
    match tag {
        Tag::Item => {
            let depth: usize = state.list_stack.len();
            if depth > 0 {
                let list = state.list_stack[depth - 1];
                state.padding.push(padding_of(list));
                if let Some(n) = list {
                    if options.increment_ordered_list_bullets {
                        state.list_stack.pop();
                        state.list_stack.push(Some(n + 1));
                    }
                }
            }
        },
        Tag::Table(alignments) => {
            state.table_alignments = alignments.clone();
        },
        Tag::TableCell => {
            state.text_for_header = Some(String::new());
        },
        Tag::Link(link_type, _, _) => {
            if *link_type == LinkType::Shortcut {
                state.current_shortcut_text = Some(String::new());
            }
        },
        Tag::BlockQuote => {
            state.padding.push(Cow::Borrowed(options.blockquote));
        },
        Tag::CodeBlock(_) => {
            state.is_in_code_block = true;
        },
        _ => {},
    }
    assert(state@ =~= entered(options@, old(state)@, *tag));
}

proof fn lemma_class_list_prefix(classes: Seq<Seq<char>>, i: int)
    requires
        0 <= i <= classes.len(),
    ensures
        class_list(classes.take(i)).is_prefix_of(class_list(classes)),
    decreases classes.len() - i,
{
    if i == classes.len() {
        assert(classes.take(i) =~= classes);
    } else {
        lemma_class_list_prefix(classes, i + 1);
        assert(classes.take(i + 1).drop_last() =~= classes.take(i));
    }
}

/// Writes one class of a heading.
fn write_class<W: Write>(f: &mut W, class: &str, is_first: bool, p: &Padding<'_>) -> (r: Result<
    (),
    std::fmt::Error,
>)
    ensures
        is_first ==> sends(
            *old(f),
            *final(f),
            r is Ok,
            reflowed(seq!['.'] + class@, p@.line_start()),
        ),
        !is_first ==> sends(
            *old(f),
            *final(f),
            r is Ok,
            reflowed(seq![' '] + seq!['.'] + class@, p@.line_start()),
        ),
        stops_at_once(*old(f), *final(f), r is Ok),
{
    broadcast use group_sends;

    proof {
        let start = p@.line_start();
        law_text_on_one_line_is_kept(seq!['.'], start);
        law_text_on_one_line_is_kept(seq![' '] + seq!['.'], start);
        lemma_reflowed_sum(seq!['.'], class@, start);
        lemma_reflowed_sum(seq![' '] + seq!['.'], class@, start);
    }
    if !is_first {
        put_char(f, ' ')?;
    }
    put_char(f, '.')?;
    put_reflowed(f, class, p)
}

proof fn lemma_reflowed_part(part: Seq<char>, whole: Seq<char>, start: Seq<char>)
    requires
        part.is_prefix_of(whole),
    ensures
        reflowed(part, start).is_prefix_of(reflowed(whole, start)),
{
    let rest = whole.skip(part.len() as int);
    assert(part + rest =~= whole);
    lemma_reflowed_sum(part, rest, start);
}

/// Writes the classes of a heading.
fn write_classes<W: Write>(f: &mut W, classes: &Vec<&str>, p: &Padding<'_>) -> (r: Result<
    (),
    std::fmt::Error,
>)
    ensures
        sends(
            *old(f),
            *final(f),
            r is Ok,
            reflowed(class_list(classes.deep_view()), p@.line_start()),
        ),
        stops_at_once(*old(f), *final(f), r is Ok),
{
    broadcast use group_sends;

    let ghost all = classes.deep_view();
    let ghost start = p@.line_start();
    assert(class_list(all.take(0)) =~= Seq::<char>::empty());
    let mut i: usize = 0;
    while i < classes.len()
        invariant
            i <= classes.len(),
            all == classes.deep_view(),
            start == p@.line_start(),
            f.refusals() == old(f).refusals(),
            sends(*old(f), *f, true, reflowed(class_list(all.take(i as int)), start)),
        decreases classes.len() - i,
    {
        broadcast use group_sends;

        let r = write_class(f, classes[i], i == 0, p);
        proof {
            let before = class_list(all.take(i as int));
            let more = if i == 0 {
                seq!['.'] + all[0]
            } else {
                seq![' '] + seq!['.'] + all[i as int]
            };
            assert(all.take(i + 1).drop_last() =~= all.take(i as int));
            assert(before + more =~= class_list(all.take(i + 1)));
            lemma_reflowed_sum(before, more, start);
            lemma_class_list_prefix(all, i + 1);
            lemma_reflowed_part(class_list(all.take(i + 1)), class_list(all), start);
        }
        if r.is_err() {
            proof {
                lemma_sends_prefix(
                    *old(f),
                    *f,
                    reflowed(class_list(all.take(i + 1)), start),
                    reflowed(class_list(all), start),
                );
            }
            return r;
        }
        i += 1;
    }
    assert(all.take(i as int) =~= all);
    Ok(())
}

/// The parts of the identifier and the classes of a heading, each with `start` at the beginning of
/// its lines.
proof fn lemma_heading_attributes_parts(
    id: Option<&str>,
    classes: Seq<Seq<char>>,
    start: Seq<char>,
)
    requires
        id is Some || classes.len() > 0,
    ensures
        ({
            let separator = if classes.len() > 0 {
                seq![' ']
            } else {
                seq![]
            };
            reflowed(heading_attributes(id, classes), start) == (match id {
                Some(name) => " {"@ + (seq!['#'] + reflowed(name@, start)) + separator,
                None => " {"@,
            }) + reflowed(class_list(classes), start) + seq!['}']
        }),
{
    reveal_strlit(" {");
    let anchor = match id {
        Some(name) => seq!['#'] + name@,
        None => seq![],
    };
    let separator = if id is Some && classes.len() > 0 {
        seq![' ']
    } else {
        seq![]
    };
    law_text_on_one_line_is_kept(" {"@, start);
    law_text_on_one_line_is_kept(seq!['#'], start);
    law_text_on_one_line_is_kept(separator, start);
    law_text_on_one_line_is_kept(seq!['}'], start);
    if let Some(name) = id {
        lemma_reflowed_sum(seq!['#'], name@, start);
    }
    lemma_reflowed_sum(" {"@, anchor, start);
    lemma_reflowed_sum(" {"@ + anchor, separator, start);
    lemma_reflowed_sum(" {"@ + anchor + separator, class_list(classes), start);
    lemma_reflowed_sum(" {"@ + anchor + separator + class_list(classes), seq!['}'], start);
    if id is None {
        assert(" {"@ + seq![] + seq![] =~= " {"@);
    }
}

/// Writes the identifier and the classes of a heading.
fn write_heading_attributes<W: Write>(
    f: &mut W,
    id: &Option<&str>,
    classes: &Vec<&str>,
    p: &Padding<'_>,
) -> (r: Result<(), std::fmt::Error>)
    ensures
        sends(
            *old(f),
            *final(f),
            r is Ok,
            reflowed(heading_attributes(*id, classes.deep_view()), p@.line_start()),
        ),
        stops_at_once(*old(f), *final(f), r is Ok),
{
    broadcast use group_sends;

    if id.is_none() && classes.is_empty() {
        return Ok(());
    }
    proof {
        lemma_heading_attributes_parts(*id, classes.deep_view(), p@.line_start());
    }
    put_str(f, " {")?;
    if let Some(id_str) = id {
        write_anchor(f, id_str, p)?;
        if !classes.is_empty() {
            put_char(f, ' ')?;
        }
    }
    write_classes(f, classes, p)?;
    put_char(f, '}')
}

/// Writes the identifier of a heading.
fn write_anchor<W: Write>(f: &mut W, id: &str, p: &Padding<'_>) -> (r: Result<(), std::fmt::Error>)
    ensures
        sends(*old(f), *final(f), r is Ok, seq!['#'] + reflowed(id@, p@.line_start())),
        stops_at_once(*old(f), *final(f), r is Ok),
{
    broadcast use group_sends;

    put_char(f, '#')?;
    put_reflowed(f, id, p)
}

/// Writes the rule below the table header `name`.
fn write_column_rule<W: Write>(
    f: &mut W,
    alignment: Alignment,
    name: &str,
    options: &Options<'_>,
) -> (r: Result<(), std::fmt::Error>)
    ensures
        sends(*old(f), *final(f), r is Ok, column_rule(options@, alignment, name@)),
        stops_at_once(*old(f), *final(f), r is Ok),
{
    broadcast use group_sends;

    let ghost all = column_rule(options@, alignment, name@);
    let is_default = options.is_default();
    let left = alignment == Alignment::Center || alignment == Alignment::Left;
    let right = alignment == Alignment::Center || alignment == Alignment::Right;
    // NOTE: For perfect counting, count grapheme clusters.
    // The reason this is not done is to avoid the dependency.
    let length: usize = byte_length(name);
    let width: usize = if is_default && right && length < 2 {
        2
    } else {
        length
    };
    let count: usize = if is_default {
        width
    } else {
        name.unicode_len()
    };
    let last_minus_one: usize = if count == 0 {
        0
    } else {
        count - 1
    };
    assert(all.take(0) =~= Seq::<char>::empty());
    let mut i: usize = 0;
    while i < width
        invariant
            i <= width == all.len(),
            forall|j: int|
                0 <= j < width ==> #[trigger] all[j] == (if (j == 0 && left) || (j
                    == last_minus_one && right) {
                    ':'
                } else {
                    '-'
                }),
            all == column_rule(options@, alignment, name@),
            f.refusals() == old(f).refusals(),
            sends(*old(f), *f, true, all.take(i as int)),
        decreases width - i,
    {
        broadcast use group_sends;

        let c = if (i == 0 && left) || (i == last_minus_one && right) {
            ':'
        } else {
            '-'
        };
        let r = put_char(f, c);
        assert(all.take(i as int) + seq![c] =~= all.take(i + 1));
        if r.is_err() {
            proof {
                lemma_sends_prefix(*old(f), *f, all.take(i + 1), all);
            }
            return r;
        }
        i += 1;
    }
    assert(all.take(i as int) =~= all);
    Ok(())
}

proof fn lemma_column_rules_prefix(
    o: OptionsView,
    alignments: Seq<Alignment>,
    headers: Seq<Seq<char>>,
    i: nat,
    n: nat,
)
    requires
        i <= n,
    ensures
        column_rules(o, alignments, headers, i).is_prefix_of(
            column_rules(o, alignments, headers, n),
        ),
    decreases n - i,
{
    if i < n {
        lemma_column_rules_prefix(o, alignments, headers, i + 1, n);
    }
}

/// Writes a bar, and the rule below the table header `name`.
fn write_column<W: Write>(
    f: &mut W,
    alignment: Alignment,
    name: &str,
    options: &Options<'_>,
) -> (r: Result<(), std::fmt::Error>)
    ensures
        sends(*old(f), *final(f), r is Ok, seq!['|'] + column_rule(options@, alignment, name@)),
        stops_at_once(*old(f), *final(f), r is Ok),
{
    broadcast use group_sends;

    put_char(f, '|')?;
    write_column_rule(f, alignment, name, options)
}

/// Writes the rules below the headers of a table.
fn write_columns<W: Write>(f: &mut W, state: &State<'_>, options: &Options<'_>) -> (r: Result<
    (),
    std::fmt::Error,
>)
    ensures
        sends(
            *old(f),
            *final(f),
            r is Ok,
            column_rules(
                options@,
                state@.table_alignments,
                state@.table_headers,
                column_count(state@),
            ),
        ),
        stops_at_once(*old(f), *final(f), r is Ok),
{
    proof {
        lemma_sends_nothing(*f);
    }
    let ghost alignments = state@.table_alignments;
    let ghost headers = state@.table_headers;
    let ghost n = column_count(state@);
    let mut i: usize = 0;
    while i < state.table_alignments.len() && i < state.table_headers.len()
        invariant
            i <= n,
            alignments == state@.table_alignments,
            headers == state@.table_headers,
            n == column_count(state@),
            f.refusals() == old(f).refusals(),
            sends(*old(f), *f, true, column_rules(options@, alignments, headers, i as nat)),
        decreases n - i,
    {
        broadcast use lemma_sends_then;

        let r = write_column(
            f,
            state.table_alignments[i],
            state.table_headers[i].as_str(),
            options,
        );
        if r.is_err() {
            proof {
                lemma_column_rules_prefix(options@, alignments, headers, (i + 1) as nat, n);
                lemma_sends_prefix(
                    *old(f),
                    *f,
                    column_rules(options@, alignments, headers, (i + 1) as nat),
                    column_rules(options@, alignments, headers, n),
                );
            }
            return r;
        }
        i += 1;
    }
    Ok(())
}

/// Writes the line below the header of a table.
fn write_header_rule<W: Write>(f: &mut W, state: &State<'_>, options: &Options<'_>) -> (r: Result<
    (),
    std::fmt::Error,
>)
    ensures
        sends(*old(f), *final(f), r is Ok, header_rule(options@, state@)),
        r is Err ==> breaks_off(*old(f), *final(f), seq![], seq!['\n'], state@.padding),
{
    broadcast use group_sends;

    let ghost p = state@.padding;
    let r = break_line(f, &state.padding);
    if r.is_err() {
        proof {
            lemma_breaks_off_line(*old(f), *f, seq!['\n'], p);
        }
        return r;
    }
    let ghost between = *f;
    let r = write_header_rest(f, state, options);
    proof {
        reveal(sends);
        assert(seq!['\n'].drop_last() =~= seq![]);
        assert(reflowed(seq!['\n'].drop_last(), p.line_start()) =~= seq![]);
        assert(reflowed(seq!['\n'], p.line_start()) =~= seq!['\n'] + p.line_start());
        assert(old(f).offered() + seq![] + reflowed(seq!['\n'], p.line_start())
            =~= between.offered());
        assert(header_rule(options@, state@) =~= (seq!['\n'] + p.line_start()) + (column_rules(
            options@,
            state@.table_alignments,
            state@.table_headers,
            column_count(state@),
        ) + seq!['|']));
    }
    r
}

/// Writes the line below the header of a table, but for the line break before it.
fn write_header_rest<W: Write>(f: &mut W, state: &State<'_>, options: &Options<'_>) -> (r: Result<
    (),
    std::fmt::Error,
>)
    ensures
        sends(
            *old(f),
            *final(f),
            r is Ok,
            column_rules(
                options@,
                state@.table_alignments,
                state@.table_headers,
                column_count(state@),
            ) + seq!['|'],
        ),
        stops_at_once(*old(f), *final(f), r is Ok),
{
    broadcast use group_sends;

    write_columns(f, state, options)?;
    put_char(f, '|')
}

/// Writes what closes the header of a table.
fn write_header_end<W: Write>(f: &mut W, state: &State<'_>, options: &Options<'_>) -> (r: Result<
    (),
    std::fmt::Error,
>)
    ensures
        sends(*old(f), *final(f), r is Ok, seq!['|'] + header_rule(options@, state@)),
        r is Err ==> breaks_off(*old(f), *final(f), seq!['|'], seq!['\n'], state@.padding),
{
    broadcast use group_sends;

    let r = put_char(f, '|');
    if r.is_err() {
        proof {
            reveal(sends);
        }
        return r;
    }
    let ghost between = *f;
    let r = write_header_rule(f, state, options);
    if r.is_err() {
        proof {
            lemma_breaks_off_behind(
                *old(f),
                between,
                *f,
                seq!['|'],
                seq![],
                seq!['\n'],
                state@.padding,
            );
            assert(seq!['|'] + seq![] =~= seq!['|']);
        }
    }
    r
}

/// Writes what closes an element.
pub(crate) fn write_closing<W: Write>(
    f: &mut W,
    state: &State<'_>,
    tag: &Tag<'_>,
    options: &Options<'_>,
) -> (r: Result<(), std::fmt::Error>)
    ensures
        sends(*old(f), *final(f), r is Ok, closing(options@, state@, *tag)),
        !(tag is TableHead) ==> stops_at_once(*old(f), *final(f), r is Ok),
        tag is TableHead && r is Err ==> breaks_off(
            *old(f),
            *final(f),
            seq!['|'],
            seq!['\n'],
            state@.padding,
        ),
{
    broadcast use group_sends;

    match tag {
        Tag::Link(link_type, uri, title) => match link_type {
            LinkType::Autolink | LinkType::Email => put_char(f, '>'),
            LinkType::Shortcut => put_char(f, ']'),
            _ => close_link(uri, title, f, LinkType::Inline, &state.padding),
        },
        Tag::Image(_, uri, title) => close_link(uri, title, f, LinkType::Inline, &state.padding),
        Tag::Emphasis => put_char(f, options.emphasis_token),
        Tag::Strong => put_str(f, options.strong_token),
        Tag::Heading(_, id, classes) => write_heading_attributes(
            f,
            id,
            classes,
            &state.padding,
        ),
        Tag::Paragraph => Ok(()),
        Tag::CodeBlock(_) => {
            if state.last_was_text_without_trailing_newline {
                next_line(f, &state.padding)?;
            }
            write_fence(f, options)
        },
        Tag::Table(_) => Ok(()),
        Tag::TableCell => Ok(()),
        Tag::TableRow => put_char(f, '|'),
        Tag::TableHead => write_header_end(f, state, options),
        Tag::Item => Ok(()),
        Tag::List(_) => Ok(()),
        Tag::BlockQuote => Ok(()),
        Tag::FootnoteDefinition(_) => Ok(()),
        Tag::Strikethrough => put_str(f, "~~"),
    }
}

/// Asks for at least `n` newlines.
fn require_newlines(state: &mut State<'_>, n: usize)
    ensures
        final(state)@ == old(state)@.at_least(n as nat),
{
    if state.newlines_before_start < n {
        state.newlines_before_start = n;
    }
}

/// Notes that an element has ended.
pub(crate) fn leave(state: &mut State<'_>, tag: &Tag<'_>, options: &Options<'_>)
    ensures
        final(state)@ == left(options@, old(state)@, *tag),
{
    state.last_was_html = false;
    state.last_was_text_without_trailing_newline = false;
    match tag {
        Tag::Link(link_type, uri, title) => {
            if *link_type == LinkType::Shortcut {
                if let Some(text) = state.current_shortcut_text.take() {
                    state.shortcuts.push((text, (*uri).to_owned(), (*title).to_owned()));
                }
            }
        },
        Tag::Heading(_, _, _) => require_newlines(state, options.newlines_after_headline),
        Tag::Paragraph => require_newlines(state, options.newlines_after_paragraph),
        Tag::CodeBlock(_) => {
            require_newlines(state, options.newlines_after_codeblock);
            state.is_in_code_block = false;
        },
        Tag::Table(_) => {
            require_newlines(state, options.newlines_after_table);
            state.table_alignments.clear();
            state.table_headers.clear();
        },
        Tag::TableCell => {
            let header = match state.text_for_header.take() {
                Some(text) => if text.as_str().is_empty() {
                    "  ".to_owned()
                } else {
                    text
                },
                None => "  ".to_owned(),
            };
            assert(header@ == cell_header(old(state)@.text_for_header));
            state.table_headers.push(header);
        },
        Tag::TableRow | Tag::TableHead => require_newlines(state, options.newlines_after_rest),
        Tag::Item => {
            state.padding.drop_alignment();
            state.padding.pop();
            require_newlines(state, options.newlines_after_rest);
        },
        Tag::List(_) => {
            state.list_stack.pop();
            if state.list_stack.is_empty() {
                require_newlines(state, options.newlines_after_list);
            }
        },
        Tag::BlockQuote => {
            state.padding.drop_alignment();
            state.padding.pop();
            require_newlines(state, options.newlines_after_blockquote);
        },
        _ => {},
    }
    assert(state@ =~= left(options@, old(state)@, *tag));
}

} // verus!
