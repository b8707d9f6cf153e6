//! From events to text.
use vstd::prelude::*;
use vstd::string::*;

use crate::event::{CodeBlockKind, Event, LinkType, Tag};
use crate::laws::{law_default_options_support_everything, law_documents_are_finalized};
use crate::lines::{
    break_line, escape_leading_special_characters, next_line, put_reflowed, write_hard_break,
    write_line_breaks, write_lines,
};
use crate::model::{
    are_supported, bounds_shortcut, code_mark_len, code_span, document, entering, event_content,
    event_state, event_text, extended, fence, finalized, html_separator, is_supported, label_text,
    noted, rendered, state_after, StateView,
};
use crate::options::{Options, OptionsView};
use crate::padding::{cow_str, Padding, PaddingView};
use crate::state::{finalizes, State};
use crate::tags::{enter, leave, newlines_before, prepare, write_closing, write_opening};
use crate::text::{contains_char, ends_with_newline, longest_run_of, repeated};
use crate::write::{
    breaks_off, emits, group_sends, lemma_breaks_off_behind, lemma_breaks_off_line,
    lemma_sends_nothing, lemma_sends_prefix, lemma_sends_then, put_str, sends, stops_at_once,
    Write,
};

verus! {

/// Adds `more` to `kept`, if there is anything to add it to.
fn extend(kept: &mut Option<String>, more: &str)
    ensures
        final(kept).deep_view() == extended(old(kept).deep_view(), more@),
{
    match kept {
        Some(text) => text.append(more),
        None => {},
    }
}

/// Takes the marks of the last event off.
fn unmark(state: &mut State<'_>)
    ensures
        final(state)@ == old(state)@.unmarked(),
{
    state.last_was_html = false;
    state.last_was_text_without_trailing_newline = false;
}

/// Writes inline code.
fn write_code<W: Write>(f: &mut W, t: &str, options: &Options<'_>, p: &Padding<'_>) -> (r: Result<
    (),
    std::fmt::Error,
>)
    ensures
        sends(*old(f), *final(f), r is Ok, code_span(options@, t@, p@.line_start())),
        stops_at_once(*old(f), *final(f), r is Ok),
{
    broadcast use group_sends;

    let token = options.code_block_token;
    let mut start = String::new();
    let mut end = String::new();
    if contains_char(t, token) {
        let n: usize = if options.is_default() {
            longest_run_of(t, token)
        } else {
            1
        };
        end.push(' ');
        let mut i: usize = 0;
        while i < n
            invariant
                i <= n,
                start@ =~= repeated(token, i as nat),
                end@ =~= seq![' '] + repeated(token, i as nat),
            decreases n - i,
        {
            start.push(token);
            end.push(token);
            i += 1;
        }
        start.push(token);
        start.push(' ');
        end.push(token);
        assert(n + 1 == code_mark_len(options@, t@));
        assert(start@ =~= repeated(token, n as nat + 1).push(' '));
        assert(end@ =~= seq![' '] + repeated(token, n as nat + 1));
    } else {
        start.push(token);
        end.push(token);
        assert(start@ =~= seq![token]);
        assert(end@ =~= seq![token]);
    }
    put_str(f, start.as_str())?;
    put_reflowed(f, t, p)?;
    put_str(f, end.as_str())
}

/// Notes inline code where the text around it is kept.
fn note_code(state: &mut State<'_>, t: &str, options: &Options<'_>)
    ensures
        final(state)@ == noted(options@, old(state)@, Event::Code(t)),
{
    unmark(state);
    let mut code = String::new();
    code.push(options.code_block_token);
    code.append(t);
    code.push(options.code_block_token);
    assert(code@ =~= seq![options.code_block_token] + t@ + seq![options.code_block_token]);
    extend(&mut state.text_for_header, code.as_str());
    assert(state@ =~= noted(options@, old(state)@, Event::Code(t)));
}

/// Notes text where it is kept.
fn note_text(state: &mut State<'_>, t: &str, options: &Options<'_>)
    ensures
        final(state)@ == noted(options@, old(state)@, Event::Text(t)),
{
    extend(&mut state.text_for_header, t);
    state.newlines_before_start = 0;
    state.last_was_html = false;
    state.last_was_text_without_trailing_newline = !ends_with_newline(t);
    assert(state@ =~= noted(options@, old(state)@, Event::Text(t)));
}

/// Notes an event.
fn note(state: &mut State<'_>, event: &Event<'_>, options: &Options<'_>)
    requires
        is_supported(options@, old(state)@, *event),
    ensures
        final(state)@ == noted(options@, old(state)@, *event),
{
    match event {
        Event::Start(tag) => {
            prepare(state, tag, options);
            enter(state, tag, options);
        },
        Event::End(tag) => leave(state, tag, options),
        Event::Text(t) => note_text(state, t, options),
        Event::Code(t) => note_code(state, t, options),
        Event::Html(_) => {
            unmark(state);
            state.newlines_before_start = 0;
            state.last_was_html = true;
        },
        Event::Rule => {
            unmark(state);
            state.newlines_before_start = options.newlines_after_rule;
        },
        _ => unmark(state),
    }
    assert(state@ =~= noted(options@, old(state)@, *event));
}

/// Writes the line break that parts HTML from the Markdown behind it.
fn write_html_separator<W: Write>(f: &mut W, state: &State<'_>, event: &Event<'_>) -> (r: Result<
    (),
    std::fmt::Error,
>)
    ensures
        sends(*old(f), *final(f), r is Ok, html_separator(state@, *event)),
        stops_at_once(*old(f), *final(f), r is Ok),
        html_separator(state@, *event).len() == 0 ==> r is Ok,
{
    broadcast use group_sends;

    if state.last_was_html {
        match event {
            // No newlines if HTML continues, and none for inline HTML.
            Event::Html(_) | Event::Text(_) => Ok(()),
            // No newlines if ending a previous opened tag.
            Event::End(_) => Ok(()),
            // A soft break will result in a newline later.
            Event::SoftBreak => Ok(()),
            // Ensure next Markdown block is rendered properly by adding a newline after an HTML
            // element.
            _ => next_line(f, &state.padding),
        }
    } else {
        Ok(())
    }
}

/// Whether the text of `e` has line breaks that are written on when the sink has refused a part of
/// them.
pub open spec fn writes_on(e: Event<'_>) -> bool {
    match e {
        Event::Start(Tag::CodeBlock(CodeBlockKind::Indented)) => true,
        Event::End(Tag::TableHead) => true,
        Event::Text(t) => t@.contains('\n'),
        Event::Html(t) => t@.contains('\n'),
        Event::SoftBreak => true,
        Event::HardBreak => true,
        _ => false,
    }
}

/// What the text of `e` has before the lines that are written on, but for the line break that may
/// part it from HTML.
pub open spec fn content_lead(o: OptionsView, st: StateView, e: Event<'_>) -> Seq<char> {
    match e {
        Event::Start(tag) => entering(o, st, tag).due() + fence(o),
        Event::End(_) => seq!['|'],
        Event::Text(_) => st.due(),
        Event::Html(_) => st.due(),
        _ => seq![],
    }
}

/// What the text of `e` has before the lines that are written on.
pub open spec fn lead(o: OptionsView, st: StateView, e: Event<'_>) -> Seq<char> {
    html_separator(st, e) + content_lead(o, st, e)
}

/// The lines of `e` that are written on, without the padding.
pub open spec fn broken(o: OptionsView, st: StateView, e: Event<'_>) -> Seq<char> {
    match e {
        Event::Text(t) => st.escaped(o, t@),
        Event::Html(t) => t@,
        Event::HardBreak => "  \n"@,
        _ => seq!['\n'],
    }
}

/// Writes what stands where an element begins.
fn write_start<W: Write>(
    f: &mut W,
    state: &State<'_>,
    tag: &Tag<'_>,
    options: &Options<'_>,
) -> (r: Result<(), std::fmt::Error>)
    ensures
        sends(*old(f), *final(f), r is Ok, event_content(options@, state@, Event::Start(*tag))),
        !writes_on(Event::Start(*tag)) ==> stops_at_once(*old(f), *final(f), r is Ok),
        writes_on(Event::Start(*tag)) && r is Err ==> breaks_off(
            *old(f),
            *final(f),
            content_lead(options@, state@, Event::Start(*tag)),
            seq!['\n'],
            state@.padding,
        ),
{
    broadcast use group_sends;

    let ghost due = entering(options@, state@, *tag).due();
    let r = write_line_breaks(f, newlines_before(state, tag, options), &state.padding);
    if r.is_err() {
        proof {
            reveal(sends);
            assert(f.offered().is_prefix_of(old(f).offered() + (due + fence(options@))));
        }
        return r;
    }
    let ghost between = *f;
    let r = write_opening(f, state, tag, options);
    proof {
        if writes_on(Event::Start(*tag)) && r is Err {
            lemma_breaks_off_behind(
                *old(f),
                between,
                *f,
                due,
                fence(options@),
                seq!['\n'],
                state@.padding,
            );
        }
    }
    r
}

/// Writes the text of one event, but for the line break that may part it from HTML.
fn write_content<W: Write>(
    f: &mut W,
    state: &State<'_>,
    event: &Event<'_>,
    options: &Options<'_>,
) -> (r: Result<(), std::fmt::Error>)
    ensures
        sends(*old(f), *final(f), r is Ok, event_content(options@, state@, *event)),
        !writes_on(*event) ==> stops_at_once(*old(f), *final(f), r is Ok),
        writes_on(*event) && r is Err ==> breaks_off(
            *old(f),
            *final(f),
            content_lead(options@, state@, *event),
            broken(options@, state@, *event),
            state@.padding,
        ),
{
    broadcast use group_sends;

    let newlines: usize = state.newlines_before_start;
    match event {
        Event::Start(tag) => write_start(f, state, tag, options),
        Event::End(tag) => write_closing(f, state, tag, options),
        Event::Text(t) => {
            let escaped = escape_leading_special_characters(t, state.is_in_code_block, options);
            proof {
                assert(escaped@ == state@.escaped(options@, t@));
                if escaped@.contains('\n') {
                    let i = choose|i: int| 0 <= i < escaped@.len() && escaped@[i] == '\n';
                    assert(t@[i - (escaped@.len() - t@.len())] == '\n');
                }
            }
            write_lines(f, newlines, cow_str(&escaped), &state.padding)
        },
        Event::Code(t) => write_code(f, t, options, &state.padding),
        Event::Html(t) => write_lines(f, newlines, t, &state.padding),
        Event::FootnoteReference(name) => {
            put_str(f, "[^")?;
            put_reflowed(f, name, &state.padding)?;
            put_str(f, "]")
        },
        Event::SoftBreak => {
            let r = break_line(f, &state.padding);
            proof {
                if r is Err {
                    lemma_breaks_off_line(*old(f), *f, seq!['\n'], state@.padding);
                }
            }
            r
        },
        Event::HardBreak => {
            let r = write_hard_break(f, &state.padding);
            proof {
                if r is Err {
                    reveal_strlit("  \n");
                    lemma_breaks_off_line(*old(f), *f, "  \n"@, state@.padding);
                }
            }
            r
        },
        Event::Rule => {
            write_line_breaks(f, newlines, &state.padding)?;
            put_str(f, "---")
        },
        Event::TaskListMarker(checked) => {
            let check = if *checked {
                "x"
            } else {
                " "
            };
            put_str(f, "[")?;
            put_str(f, check)?;
            put_str(f, "] ")
        },
    }
}

/// Writes the text of one event.
fn write_event<W: Write>(
    f: &mut W,
    state: &State<'_>,
    event: &Event<'_>,
    options: &Options<'_>,
) -> (r: Result<(), std::fmt::Error>)
    ensures
        sends(*old(f), *final(f), r is Ok, event_text(options@, state@, *event)),
        !writes_on(*event) ==> stops_at_once(*old(f), *final(f), r is Ok),
        writes_on(*event) && r is Err ==> breaks_off(
            *old(f),
            *final(f),
            lead(options@, state@, *event),
            broken(options@, state@, *event),
            state@.padding,
        ),
{
    broadcast use group_sends;

    let r = write_html_separator(f, state, event);
    if r.is_err() {
        proof {
            reveal(sends);
            assert(f.offered().is_prefix_of(old(f).offered() + lead(options@, state@, *event)));
        }
        return r;
    }
    let ghost between = *f;
    let r = write_content(f, state, event, options);
    proof {
        if writes_on(*event) && r is Err {
            lemma_breaks_off_behind(
                *old(f),
                between,
                *f,
                html_separator(state@, *event),
                content_lead(options@, state@, *event),
                broken(options@, state@, *event),
                state@.padding,
            );
        }
    }
    r
}

/// Tells whether `event` is where a shortcut begins or ends.
fn is_shortcut_bound(event: &Event<'_>) -> (r: bool)
    ensures
        r == bounds_shortcut(*event),
{
    match event {
        Event::Start(Tag::Link(link_type, _, _)) => *link_type == LinkType::Shortcut,
        Event::End(Tag::Link(link_type, _, _)) => *link_type == LinkType::Shortcut,
        _ => false,
    }
}

/// Returns what `event` adds to the label of the shortcut around it.
fn label_of(state: &mut State<'_>, event: &Event<'_>, options: &Options<'_>) -> (label: String)
    ensures
        label@ == label_text(options@, old(state)@, *event),
        final(state)@ == old(state)@,
{
    let mut label = String::new();
    if !options.is_default() {
        match event {
            Event::Text(t) => label.append(t),
            Event::Code(t) => {
                label.append("`");
                label.append(t);
                label.append("`");
            },
            _ => {},
        }
        assert(label@ =~= label_text(options@, old(state)@, *event));
        return label;
    }
    let mut padding = Padding::default();
    std::mem::swap(&mut padding, &mut state.padding);
    assert(state@ =~= StateView { padding: PaddingView::empty(), ..old(state)@ });
    let written = write_event(&mut label, state, event, options);
    std::mem::swap(&mut padding, &mut state.padding);
    proof {
        reveal(sends);
        assert(state@ =~= old(state)@);
        assert(written is Ok);
        assert(label@ =~= label_text(options@, old(state)@, *event));
    }
    label
}

/// Renders one event.
fn render_event<W: Write>(
    f: &mut W,
    state: &mut State<'_>,
    event: &Event<'_>,
    options: &Options<'_>,
) -> (r: Result<(), std::fmt::Error>)
    requires
        is_supported(options@, old(state)@, *event),
    ensures
        sends(*old(f), *final(f), r is Ok, event_text(options@, old(state)@, *event)),
        !writes_on(*event) ==> stops_at_once(*old(f), *final(f), r is Ok),
        writes_on(*event) && r is Err ==> breaks_off(
            *old(f),
            *final(f),
            lead(options@, old(state)@, *event),
            broken(options@, old(state)@, *event),
            old(state)@.padding,
        ),
        r is Ok ==> final(state)@ == event_state(options@, old(state)@, *event),
{
    write_event(f, state, event, options)?;
    if state.current_shortcut_text.is_some() && !is_shortcut_bound(event) {
        let label = label_of(state, event, options);
        note(state, event, options);
        extend(&mut state.current_shortcut_text, label.as_str());
    } else {
        note(state, event, options);
    }
    assert(state@ =~= event_state(options@, old(state)@, *event));
    Ok(())
}

/// Tells whether `event` can be rendered in `state`: the number of an item must leave room for the
/// next one if items are counted.
pub fn is_renderable(event: &Event<'_>, state: &State<'_>, options: &Options<'_>) -> (r: bool)
    ensures
        r == is_supported(options@, state@, *event),
{
    match event {
        Event::Start(Tag::Item) => {
            let depth: usize = state.list_stack.len();
            if options.increment_ordered_list_bullets && depth > 0 {
                match state.list_stack[depth - 1] {
                    Some(n) => n != u64::MAX,
                    None => true,
                }
            } else {
                true
            }
        },
        _ => true,
    }
}

proof fn lemma_rendered_prefix(o: OptionsView, st: StateView, events: Seq<Event<'_>>, i: int)
    requires
        0 <= i <= events.len(),
        are_supported(o, st, events),
    ensures
        rendered(o, st, events.take(i)).is_prefix_of(rendered(o, st, events)),
        are_supported(o, st, events.take(i)),
    decreases events.len() - i,
{
    if i == events.len() {
        assert(events.take(i) =~= events);
    } else {
        lemma_rendered_prefix(o, st, events, i + 1);
        assert(events.take(i + 1).drop_last() =~= events.take(i));
    }
}

/// What holds if rendering fails at `events[k]`: the sink took what comes before it and became
/// `mid`, and then refused something of the text of `events[k]`. Nothing follows that, but for the
/// rest of a line if that is written on.
pub open spec fn fails_at<W: Write>(
    before: W,
    mid: W,
    after: W,
    o: OptionsView,
    st: StateView,
    events: Seq<Event<'_>>,
    k: int,
) -> bool {
    let s = state_after(o, st, events.take(k));
    &&& emits(before, mid, true, rendered(o, st, events.take(k)))
    &&& emits(mid, after, false, event_text(o, s, events[k]))
    &&& !writes_on(events[k]) ==> stops_at_once(mid, after, false)
    &&& writes_on(events[k]) ==> breaks_off(
        mid,
        after,
        lead(o, s, events[k]),
        broken(o, s, events[k]),
        s.padding,
    )
}

/// What holds after `events` were rendered from the state `st` until the sink refused something:
/// `ok` says whether it took everything. If it did not, rendering stopped with the event whose text
/// was refused. If there are no events, nothing was handed to the sink.
pub open spec fn renders<W: Write>(
    before: W,
    after: W,
    ok: bool,
    o: OptionsView,
    st: StateView,
    events: Seq<Event<'_>>,
) -> bool {
    &&& emits(before, after, ok, rendered(o, st, events))
    &&& !ok ==> exists|k: int, mid: W|
        0 <= k < events.len() && #[trigger] fails_at(before, mid, after, o, st, events, k)
    &&& events.len() == 0 ==> ok && after == before
}

/// Renders `events`, one after the other.
fn render_events<W: Write>(
    f: &mut W,
    state: &mut State<'_>,
    events: &[Event<'_>],
    options: &Options<'_>,
) -> (r: Result<(), std::fmt::Error>)
    requires
        are_supported(options@, old(state)@, events@),
    ensures
        renders(*old(f), *final(f), r is Ok, options@, old(state)@, events@),
        r is Ok ==> final(state)@ == state_after(options@, old(state)@, events@),
{
    proof {
        lemma_sends_nothing(*f);
    }
    let mut i: usize = 0;
    while i < events.len()
        invariant
            i <= events.len(),
            i == 0 ==> *f == *old(f),
            are_supported(options@, old(state)@, events@),
            state@ == state_after(options@, old(state)@, events@.take(i as int)),
            sends(*old(f), *f, true, rendered(options@, old(state)@, events@.take(i as int))),
        decreases events.len() - i,
    {
        broadcast use lemma_sends_then;

        proof {
            lemma_rendered_prefix(options@, old(state)@, events@, i + 1);
            assert(events@.take(i + 1).drop_last() =~= events@.take(i as int));
        }
        let ghost mid = *f;
        let r = render_event(f, state, &events[i], options);
        if r.is_err() {
            proof {
                lemma_sends_prefix(
                    *old(f),
                    *f,
                    rendered(options@, old(state)@, events@.take(i + 1)),
                    rendered(options@, old(state)@, events@),
                );
                reveal(sends);
                assert(fails_at(*old(f), mid, *f, options@, old(state)@, events@, i as int));
            }
            return r;
        }
        i += 1;
    }
    proof {
        assert(events@.take(i as int) =~= events@);
        reveal(sends);
    }
    Ok(())
}

/// The state from which rendering goes on.
pub open spec fn resumed(state: Option<State<'_>>) -> StateView {
    match state {
        Some(s) => s@,
        None => StateView::initial(),
    }
}

/// Serialize a stream of [events](Event) into a string-backed buffer.
///
/// 1. **events**
///    * The [events](Event), in the order of the document.
/// 1. **formatter**
///    * A [sink](Write), can be a `String`.
/// 1. **state**
///    * The optional initial state of the serialization.
/// 1. **options**
///    * Customize the appearance of the serialization. All otherwise magic values are contained
///      here.
///
/// *Returns* the [`State`] of the serialization on success. You can use it as initial state in the
/// next call if you are halting event serialization.
/// *Errors* are only happening if the underlying buffer fails, which is unlikely.
pub fn cmark_resume_with_options<W: Write>(
    events: &[Event<'_>],
    formatter: &mut W,
    state: Option<State<'static>>,
    options: Options<'_>,
) -> (r: Result<State<'static>, std::fmt::Error>)
    requires
        are_supported(options@, resumed(state), events@),
    ensures
        renders(
            *old(formatter),
            *final(formatter),
            r is Ok,
            options@,
            resumed(state),
            events@,
        ),
        r matches Ok(s) ==> s@ == state_after(options@, resumed(state), events@),
{
    let mut state = match state {
        Some(s) => s,
        None => State::default(),
    };
    render_events(formatter, &mut state, events, &options)?;
    Ok(state)
}

/// As [`cmark_resume_with_options()`], but with default [`Options`].
pub fn cmark_resume<W: Write>(
    events: &[Event<'_>],
    formatter: &mut W,
    state: Option<State<'static>>,
) -> (r: Result<State<'static>, std::fmt::Error>)
    ensures
        renders(
            *old(formatter),
            *final(formatter),
            r is Ok,
            OptionsView::standard(),
            resumed(state),
            events@,
        ),
        r matches Ok(s) ==> s@ == state_after(OptionsView::standard(), resumed(state), events@),
{
    proof {
        law_default_options_support_everything(resumed(state), events@);
    }
    cmark_resume_with_options(events, formatter, state, Options::default())
}

/// What holds if a document was rendered, and the sink was `mid` when its events were: then the
/// definitions of its shortcuts follow, and nothing at all if the events were not rendered to their
/// end.
pub open spec fn passes<W: Write>(
    before: W,
    mid: W,
    rendered_all: bool,
    after: W,
    ok: bool,
    o: OptionsView,
    events: Seq<Event<'_>>,
) -> bool {
    &&& renders(before, mid, rendered_all, o, StateView::initial(), events)
    &&& rendered_all ==> finalizes(
        mid,
        after,
        ok,
        state_after(o, StateView::initial(), events).shortcuts,
    )
    &&& !rendered_all ==> !ok && after == mid
}

/// What holds after a whole document was written: its events were rendered from the initial state,
/// and the state that they left was finalized, until the sink refused something. `ok` says whether
/// it took everything.
pub open spec fn completes<W: Write>(
    before: W,
    after: W,
    ok: bool,
    o: OptionsView,
    events: Seq<Event<'_>>,
) -> bool {
    &&& emits(before, after, ok, document(o, events))
    &&& exists|mid: W, rendered_all: bool| #[trigger]
        passes(before, mid, rendered_all, after, ok, o, events)
}

/// As [`cmark_resume_with_options()`], but with the [`State`] finalized.
pub fn cmark_with_options<W: Write>(
    events: &[Event<'_>],
    formatter: &mut W,
    options: Options<'_>,
) -> (r: Result<State<'static>, std::fmt::Error>)
    requires
        are_supported(options@, StateView::initial(), events@),
    ensures
        completes(*old(formatter), *final(formatter), r is Ok, options@, events@),
        r matches Ok(s) ==> s@ == finalized(
            state_after(options@, StateView::initial(), events@),
        ),
{
    let ghost o = options@;
    let rendering = cmark_resume_with_options(events, formatter, None, options);
    let ghost mid = *formatter;
    match rendering {
        Ok(state) => {
            let finalizing = state.finalize(formatter);
            proof {
                law_documents_are_finalized(
                    *old(formatter),
                    mid,
                    true,
                    *formatter,
                    finalizing is Ok,
                    o,
                    events@,
                );
            }
            finalizing
        },
        Err(e) => {
            proof {
                law_documents_are_finalized(
                    *old(formatter),
                    mid,
                    false,
                    *formatter,
                    false,
                    o,
                    events@,
                );
            }
            Err(e)
        },
    }
}

/// As [`cmark_with_options()`], but with default [`Options`].
pub fn cmark<W: Write>(events: &[Event<'_>], formatter: &mut W) -> (r: Result<
    State<'static>,
    std::fmt::Error,
>)
    ensures
        completes(
            *old(formatter),
            *final(formatter),
            r is Ok,
            OptionsView::standard(),
            events@,
        ),
        r matches Ok(s) ==> s@ == finalized(
            state_after(OptionsView::standard(), StateView::initial(), events@),
        ),
{
    proof {
        law_default_options_support_everything(StateView::initial(), events@);
    }
    cmark_with_options(events, formatter, Options::default())
}

} // verus!
