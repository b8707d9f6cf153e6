use std::fmt;

use pulldown_cmark_to_cmark::{
    cmark, cmark_resume, cmark_resume_with_options, CodeBlockKind, Event, LinkType, Options,
    Padding, State, Tag, Write,
};

/// Refuses each text that is longer than what it has room for.
struct Bounded {
    room: usize,
    taken: String,
    offered: String,
    refusals: usize,
    was_refused: bool,
}

impl Bounded {
    fn new(room: usize) -> Self {
        Bounded {
            room,
            taken: String::new(),
            offered: String::new(),
            refusals: 0,
            was_refused: false,
        }
    }
}

impl Write for Bounded {
    fn write_str(&mut self, s: &str) -> fmt::Result {
        self.offered.push_str(s);
        if self.taken.len() + s.len() > self.room {
            self.refusals += 1;
            self.was_refused = true;
            return Err(fmt::Error);
        }
        self.was_refused = false;
        self.taken.push_str(s);
        Ok(())
    }

    fn write_char(&mut self, c: char) -> fmt::Result {
        self.write_str(c.to_string().as_str())
    }
}

fn sample() -> Vec<Event<'static>> {
    let link = Tag::Link(LinkType::Shortcut, "a b", "title");
    let code = Tag::CodeBlock(CodeBlockKind::Fenced("rust"));
    vec![
        Event::Start(Tag::List(Some(1))),
        Event::Start(Tag::Item),
        Event::Start(Tag::Paragraph),
        Event::Text("first\nsecond\n\nthird"),
        Event::Start(link.clone()),
        Event::Text("short"),
        Event::End(link),
        Event::HardBreak,
        Event::Code("x`y"),
        Event::End(Tag::Paragraph),
        Event::Start(code.clone()),
        Event::Text("let x;"),
        Event::End(code),
        Event::End(Tag::Item),
        Event::End(Tag::List(Some(1))),
        Event::Html("<p>"),
        Event::Rule,
    ]
}

#[test]
fn errors_only_happen_if_the_sink_refuses() {
    let events = sample();
    let mut whole = String::new();
    cmark(&events, &mut whole).unwrap();
    for room in 0..whole.len() {
        let mut sink = Bounded::new(room);
        assert!(cmark(&events, &mut sink).is_err());
        assert!(sink.refusals > 0);
        assert!(whole.starts_with(&sink.offered));
    }
    let mut sink = Bounded::new(whole.len());
    assert!(cmark(&events, &mut sink).is_ok());
    assert_eq!(sink.refusals, 0);
    assert_eq!(sink.taken, whole);
}

#[test]
fn a_break_is_offered_whether_the_text_before_it_was_taken_or_not() {
    let mut sink = Bounded::new(3);
    assert!(cmark(&[Event::Text("long\nb")], &mut sink).is_err());
    assert_eq!(sink.offered, "long\n");
    assert_eq!(sink.taken, "\n");
}

/// Refuses each newline and whatever holds one.
struct OneLine {
    offered: String,
    refusals: usize,
}

impl Write for OneLine {
    fn write_str(&mut self, s: &str) -> fmt::Result {
        self.offered.push_str(s);
        if s.contains('\n') {
            self.refusals += 1;
            return Err(fmt::Error);
        }
        Ok(())
    }

    fn write_char(&mut self, c: char) -> fmt::Result {
        self.write_str(c.to_string().as_str())
    }
}

#[test]
fn the_padding_is_offered_behind_a_break_that_was_refused() {
    let code = Tag::CodeBlock(CodeBlockKind::Indented);
    let cases = [
        (Event::SoftBreak, "\n  > "),
        (Event::HardBreak, "  \n  > "),
        (Event::Text("a\nb\nc"), "a\n  > "),
        (Event::Html("<a>\n<b>"), "<a>\n  > "),
        (Event::Start(code), "````\n  > "),
        (Event::End(Tag::TableHead), "|\n  > "),
    ];
    for (event, expected) in cases {
        let state = State { padding: Padding::from(vec!["  ", "> "]), ..State::default() };
        let mut sink = OneLine { offered: String::new(), refusals: 0 };
        assert!(cmark_resume(&[event, Event::Rule], &mut sink, Some(state)).is_err());
        assert_eq!(sink.offered, expected);
        assert_eq!(sink.refusals, 1);
    }
    let state = State {
        padding: Padding::from(vec!["> "]),
        newlines_before_start: 1,
        ..State::default()
    };
    let mut sink = OneLine { offered: String::new(), refusals: 0 };
    assert!(cmark_resume(&[Event::Text("a\nb")], &mut sink, Some(state)).is_err());
    assert_eq!(sink.offered, "\n");
}

#[test]
fn serialization_can_be_halted_anywhere() {
    let events = sample();
    let mut whole = String::new();
    let expected = cmark_resume(&events, &mut whole, None).unwrap();
    for i in 0..=events.len() {
        for j in i..=events.len() {
            let mut s = String::new();
            let state = cmark_resume(&events[..i], &mut s, None).unwrap();
            let state = cmark_resume(&events[i..j], &mut s, Some(state)).unwrap();
            let state = cmark_resume(&events[j..], &mut s, Some(state)).unwrap();
            assert_eq!(s, whole);
            assert_eq!(state, expected);
        }
    }
}

#[test]
fn serialization_can_be_halted_anywhere_with_options() {
    let options = Options {
        increment_ordered_list_bullets: true,
        blockquote: "> ",
        list_token: '-',
        ..Options::default()
    };
    let events = sample();
    let mut whole = String::new();
    let expected =
        cmark_resume_with_options(&events, &mut whole, None, options.clone()).unwrap();
    let mut s = String::new();
    let mut state = State::default();
    for event in events {
        state =
            cmark_resume_with_options(&[event], &mut s, Some(state), options.clone()).unwrap();
    }
    assert_eq!(s, whole);
    assert_eq!(state, expected);
}

#[test]
fn rendering_stops_with_the_event_whose_text_is_refused() {
    let events = [Event::Code("long"), Event::Text("a"), Event::Text("b")];
    let mut sink = Bounded::new(3);
    assert!(cmark_resume(&events, &mut sink, None).is_err());
    assert_eq!(sink.offered, "`long");
    assert_eq!(sink.taken, "`");
    assert_eq!(sink.refusals, 1);
    let mut sink = Bounded::new(7);
    assert!(cmark_resume(&events, &mut sink, None).is_err());
    assert_eq!(sink.taken, "`long`a");
    assert_eq!(sink.offered, "`long`ab");
}

/// Refuses everything.
struct Closed {
    calls: usize,
}

impl Write for Closed {
    fn write_str(&mut self, _: &str) -> fmt::Result {
        self.calls += 1;
        Err(fmt::Error)
    }

    fn write_char(&mut self, _: char) -> fmt::Result {
        self.calls += 1;
        Err(fmt::Error)
    }
}

#[test]
fn nothing_to_write_is_never_refused() {
    let mut sink = Closed { calls: 0 };
    assert!(State::default().finalize(&mut sink).is_ok());
    assert!(cmark(&[], &mut sink).is_ok());
    assert!(cmark_resume(&[], &mut sink, None).is_ok());
    assert_eq!(sink.calls, 0);
    assert!(cmark(&[Event::Rule, Event::Rule], &mut sink).is_err());
    assert_eq!(sink.calls, 1);
}

#[test]
fn nothing_is_defined_behind_a_failed_rendering() {
    let link = Tag::Link(LinkType::Shortcut, "u", "");
    let events = [
        Event::Start(link.clone()),
        Event::Text("a"),
        Event::End(link),
        Event::Code("long"),
    ];
    let mut sink = Bounded::new(4);
    assert!(cmark(&events, &mut sink).is_err());
    assert_eq!(sink.taken, "[a]`");
    assert_eq!(sink.offered, "[a]`long");
}

#[test]
fn a_document_is_rendered_and_then_finalized() {
    let events = sample();
    let mut whole = String::new();
    cmark(&events, &mut whole).unwrap();
    for room in 0..=whole.len() {
        let mut one = Bounded::new(room);
        let done = cmark(&events, &mut one);
        let mut two = Bounded::new(room);
        let by_hand = match cmark_resume(&events, &mut two, None) {
            Ok(state) => state.finalize(&mut two),
            Err(e) => Err(e),
        };
        assert_eq!(done, by_hand);
        assert_eq!(one.offered, two.offered);
        assert_eq!(one.taken, two.taken);
        if let Ok(state) = done {
            assert!(state.shortcuts.is_empty());
        }
    }
}

#[test]
fn definitions_are_refused_too() {
    let state = State {
        shortcuts: vec![("a".to_string(), "u".to_string(), "t".to_string())],
        ..State::default()
    };
    let text = "\n\n[a]: u \"t\"";
    for room in 0..text.len() {
        let mut sink = Bounded::new(room);
        assert!(state.clone().finalize(&mut sink).is_err());
        assert_eq!(sink.refusals, 1);
        assert!(sink.was_refused);
        assert!(text.starts_with(&sink.offered));
    }
    let mut sink = Bounded::new(text.len());
    assert!(state.finalize(&mut sink).is_ok());
    assert_eq!(sink.taken, text);
}
