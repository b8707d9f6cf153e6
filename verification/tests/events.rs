use std::borrow::Cow;

use pulldown_cmark_to_cmark::{
    cmark, cmark_resume, cmark_resume_with_options, cmark_with_options, is_renderable, Alignment,
    CodeBlockKind, Event, HeadingLevel, LinkType, Options, Padding, State, Tag,
};

fn text_of(events: &[Event<'_>]) -> String {
    let mut s = String::new();
    cmark(events, &mut s).unwrap();
    s
}

fn resumed(events: &[Event<'_>], state: State<'static>) -> (String, State<'static>) {
    let mut s = String::new();
    let state = cmark_resume(events, &mut s, Some(state)).unwrap();
    (s, state)
}

fn with(options: Options<'_>, events: &[Event<'_>]) -> (String, State<'static>) {
    let mut s = String::new();
    let state = cmark_resume_with_options(events, &mut s, None, options).unwrap();
    (s, state)
}

#[test]
fn nothing_gives_nothing() {
    assert_eq!(text_of(&[]), "");
    let (s, state) = resumed(&[], State { newlines_before_start: 3, ..State::default() });
    assert_eq!(s, "");
    assert_eq!(state.newlines_before_start, 3);
}

#[test]
fn text_is_appended_to_what_the_buffer_holds() {
    let mut s = String::from("kept ");
    cmark(&[Event::Text("more")], &mut s).unwrap();
    assert_eq!(s, "kept more");
}

#[test]
fn rule() {
    let (s, state) = resumed(&[Event::Rule], State::default());
    assert_eq!(s, "---");
    assert_eq!(state, State { newlines_before_start: 2, ..State::default() });
}

#[test]
fn rule_behind_a_paragraph() {
    let state = State { newlines_before_start: 2, ..State::default() };
    let (s, state) = resumed(&[Event::Rule], state);
    assert_eq!(s, "\n\n---");
    assert_eq!(state.newlines_before_start, 2);
}

#[test]
fn headings_of_all_levels() {
    let levels = [
        (HeadingLevel::H1, "# x"),
        (HeadingLevel::H2, "## x"),
        (HeadingLevel::H3, "### x"),
        (HeadingLevel::H4, "#### x"),
        (HeadingLevel::H5, "##### x"),
        (HeadingLevel::H6, "###### x"),
    ];
    for (level, expected) in levels {
        let tag = Tag::Heading(level, None, vec![]);
        let events = [Event::Start(tag.clone()), Event::Text("x"), Event::End(tag)];
        let (s, state) = resumed(&events, State::default());
        assert_eq!(s, expected);
        assert_eq!(state.newlines_before_start, 2);
    }
}

#[test]
fn heading_attributes() {
    let cases = [
        (None, vec![], "# "),
        (Some("id"), vec![], "#  {#id}"),
        (None, vec!["a"], "#  {.a}"),
        (None, vec!["a", "b"], "#  {.a .b}"),
        (Some("id"), vec!["a", "b", "c"], "#  {#id .a .b .c}"),
    ];
    for (id, classes, expected) in cases {
        let tag = Tag::Heading(HeadingLevel::H1, id, classes);
        assert_eq!(text_of(&[Event::Start(tag.clone()), Event::End(tag)]), expected);
    }
}

#[test]
fn paragraphs_are_parted_by_an_empty_line() {
    let events = [
        Event::Start(Tag::Paragraph),
        Event::Text("a"),
        Event::End(Tag::Paragraph),
        Event::Start(Tag::Paragraph),
        Event::Text("b"),
        Event::End(Tag::Paragraph),
    ];
    assert_eq!(text_of(&events), "a\n\nb");
}

#[test]
fn the_end_of_an_element_never_asks_for_fewer_newlines() {
    let state = State { newlines_before_start: 5, ..State::default() };
    let (s, state) = resumed(&[Event::End(Tag::Paragraph)], state);
    assert_eq!(s, "");
    assert_eq!(state.newlines_before_start, 5);
}

#[test]
fn inline_markup() {
    let events = [
        Event::Start(Tag::Emphasis),
        Event::Text("a"),
        Event::End(Tag::Emphasis),
        Event::Start(Tag::Strong),
        Event::Text("b"),
        Event::End(Tag::Strong),
        Event::Start(Tag::Strikethrough),
        Event::Text("c"),
        Event::End(Tag::Strikethrough),
    ];
    assert_eq!(text_of(&events), "*a***b**~~c~~");
    let options = Options { emphasis_token: '_', strong_token: "__", ..Options::default() };
    assert_eq!(with(options, &events).0, "_a___b__~~c~~");
}

#[test]
fn leading_special_characters_are_escaped() {
    for c in "#\\_*<>`|[]".chars() {
        let text = format!("{}a{}", c, c);
        assert_eq!(text_of(&[Event::Text(&text)]), format!("\\{}a{}", c, c));
    }
    assert_eq!(text_of(&[Event::Text("a#")]), "a#");
    assert_eq!(text_of(&[Event::Text("-")]), "-");
    assert_eq!(text_of(&[Event::Text("")]), "");
    assert_eq!(text_of(&[Event::Text("\u{e9}")]), "\u{e9}");
}

#[test]
fn reconfigured_tokens_are_escaped_too() {
    let options = Options { list_token: '-', ..Options::default() };
    assert_eq!(with(options.clone(), &[Event::Text("-a")]).0, "\\-a");
    assert_eq!(with(options, &[Event::Text("*a")]).0, "\\*a");
    let options = Options { list_token: '\u{2022}', ..Options::default() };
    assert_eq!(with(options, &[Event::Text("\u{2022}a")]).0, "\\\u{2022}a");
}

#[test]
fn text_in_a_code_block_is_not_escaped() {
    let state = State { is_in_code_block: true, ..State::default() };
    assert_eq!(resumed(&[Event::Text("#a")], state).0, "#a");
}

#[test]
fn marks_of_the_last_event() {
    let (_, state) = resumed(&[Event::Text("a")], State::default());
    assert!(state.last_was_text_without_trailing_newline);
    assert!(!state.last_was_html);
    let (_, state) = resumed(&[Event::Text("a\n")], State::default());
    assert!(!state.last_was_text_without_trailing_newline);
    let (_, state) = resumed(&[Event::Text("")], State::default());
    assert!(state.last_was_text_without_trailing_newline);
    let (_, state) = resumed(&[Event::Html("<p>")], State::default());
    assert!(state.last_was_html);
    let (_, state) = resumed(&[Event::Html("<p>"), Event::Text("a\n")], State::default());
    assert!(!state.last_was_html);
}

#[test]
fn text_runs_over_its_lines_with_the_padding() {
    let state = State { padding: Padding::from(vec!["  ", " > "]), ..State::default() };
    assert_eq!(resumed(&[Event::Text("a\nb\n\nc\n")], state).0, "a\n   > b\n   > \n   > c\n   > ");
}

#[test]
fn due_newlines_carry_the_padding() {
    let state = State {
        padding: Padding::from(vec!["> "]),
        newlines_before_start: 2,
        ..State::default()
    };
    let (s, state) = resumed(&[Event::Text("a")], state);
    assert_eq!(s, "\n> \n> a");
    assert_eq!(state.newlines_before_start, 0);
}

#[test]
fn breaks() {
    let state = State { padding: Padding::from(vec!["> "]), ..State::default() };
    assert_eq!(resumed(&[Event::SoftBreak], state.clone()).0, "\n> ");
    assert_eq!(resumed(&[Event::HardBreak], state).0, "  \n> ");
}

#[test]
fn inline_code() {
    assert_eq!(text_of(&[Event::Code("a")]), "`a`");
    assert_eq!(text_of(&[Event::Code("a`b")]), "`` a`b ``");
    let options = Options { code_block_token: '~', ..Options::default() };
    assert_eq!(with(options.clone(), &[Event::Code("a`b")]).0, "~a`b~");
    assert_eq!(with(options, &[Event::Code("a~b")]).0, "~~ a~b ~~");
}

#[test]
fn inline_code_does_not_hold_the_mark_that_closes_it() {
    assert_eq!(text_of(&[Event::Code("a``b")]), "``` a``b ```");
    assert_eq!(text_of(&[Event::Code("`a``b```")]), "```` `a``b``` ````");
    assert_eq!(text_of(&[Event::Code("``a`b")]), "``` ``a`b ```");
    assert_eq!(text_of(&[Event::Code("`")]), "`` ` ``");
    assert_eq!(text_of(&[Event::Code("")]), "``");
}

#[test]
fn inline_code_with_other_options() {
    let options = Options { code_block_token: '~', ..Options::default() };
    assert_eq!(with(options, &[Event::Code("a~~b")]).0, "~~ a~~b ~~");
    let options = Options { emphasis_token: '_', ..Options::default() };
    assert_eq!(with(options.clone(), &[Event::Code("a``b")]).0, "`` a``b ``");
    assert_eq!(with(options, &[Event::Code("a")]).0, "`a`");
}

#[test]
fn all_lines_carry_the_padding() {
    let link = Tag::Link(LinkType::Inline, "u", "one\ntwo");
    let heading = Tag::Heading(HeadingLevel::H1, Some("a\nb"), vec!["c\nd", "e"]);
    let code = Tag::CodeBlock(CodeBlockKind::Fenced("x\ny"));
    let cases = [
        (Event::End(link), "](u \"one\n> two\")"),
        (Event::End(Tag::Image(LinkType::Inline, "a\nb", "")), "](a\n> b)"),
        (Event::End(Tag::Link(LinkType::Inline, "a b\nc", "")), "](<a b\n> c>)"),
        (Event::End(heading), " {#a\n> b .c\n> d .e}"),
        (Event::Start(code), "\n> ````x\n> y\n> "),
        (Event::Start(Tag::FootnoteDefinition("a\nb")), "[^a\n> b]: "),
        (Event::FootnoteReference("a\nb"), "[^a\n> b]"),
        (Event::Code("a\nb"), "`a\n> b`"),
        (Event::Code("a`\nb"), "`` a`\n> b ``"),
    ];
    for (event, expected) in cases {
        let state = State { padding: Padding::from(vec!["> "]), ..State::default() };
        assert_eq!(resumed(&[event.clone()], state).0, expected);
        let (bare, _) = resumed(&[event], State::default());
        assert_eq!(bare, expected.replace("\n> ", "\n"));
    }
}

#[test]
fn definitions_carry_no_padding() {
    let state = State {
        padding: Padding::from(vec!["> "]),
        shortcuts: vec![("a\nb".to_string(), "u".to_string(), "one\ntwo".to_string())],
        ..State::default()
    };
    let mut s = String::new();
    state.finalize(&mut s).unwrap();
    assert_eq!(s, "\n\n[a\nb]: u \"one\ntwo\"");
}

#[test]
fn footnotes() {
    let events = [
        Event::FootnoteReference("n"),
        Event::Start(Tag::FootnoteDefinition("n")),
        Event::Text("x"),
        Event::End(Tag::FootnoteDefinition("n")),
    ];
    assert_eq!(text_of(&events), "[^n][^n]: x");
}

#[test]
fn task_list_markers() {
    assert_eq!(text_of(&[Event::TaskListMarker(true)]), "[x] ");
    assert_eq!(text_of(&[Event::TaskListMarker(false)]), "[ ] ");
}

#[test]
fn html_is_parted_from_markdown() {
    let html = Event::Html("<div>");
    let cases = [
        (Event::Html("</div>"), "<div></div>"),
        (Event::Text("a"), "<div>a"),
        (Event::SoftBreak, "<div>\n"),
        (Event::End(Tag::Emphasis), "<div>*"),
        (Event::Start(Tag::Emphasis), "<div>\n*"),
        (Event::Code("a"), "<div>\n`a`"),
        (Event::Rule, "<div>\n---"),
        (Event::HardBreak, "<div>\n  \n"),
        (Event::FootnoteReference("a"), "<div>\n[^a]"),
        (Event::TaskListMarker(true), "<div>\n[x] "),
    ];
    for (event, expected) in cases {
        assert_eq!(text_of(&[html.clone(), event]), expected);
    }
}

#[test]
fn html_is_parted_from_markdown_with_the_padding() {
    let events = [
        Event::Start(Tag::BlockQuote),
        Event::Html("<div>"),
        Event::Start(Tag::Paragraph),
        Event::Text("a"),
    ];
    assert_eq!(text_of(&events), " > <div>\n > a");
}

#[test]
fn html_runs_over_its_lines_unescaped() {
    let state = State { padding: Padding::from(vec!["> "]), ..State::default() };
    assert_eq!(resumed(&[Event::Html("<a>\n<b>")], state).0, "<a>\n> <b>");
}

#[test]
fn fenced_code_block() {
    let tag = Tag::CodeBlock(CodeBlockKind::Fenced("rust"));
    let events = [Event::Start(tag.clone()), Event::Text("#x\n"), Event::End(tag.clone())];
    let (s, state) = resumed(&events, State::default());
    assert_eq!(s, "\n````rust\n#x\n````");
    assert_eq!(state.newlines_before_start, 2);
    assert!(!state.is_in_code_block);
    let (s, state) = resumed(
        &[Event::Start(tag)],
        State { newlines_before_start: 1, ..State::default() },
    );
    assert_eq!(s, "\n````rust\n");
    assert!(state.is_in_code_block);
}

#[test]
fn code_block_without_trailing_newline() {
    let tag = Tag::CodeBlock(CodeBlockKind::Indented);
    let events = [Event::Start(tag.clone()), Event::Text("x"), Event::End(tag.clone())];
    assert_eq!(text_of(&events), "````\nx\n````");
    let options = Options {
        code_block_token: '~',
        code_block_token_count: 3,
        newlines_after_codeblock: 7,
        ..Options::default()
    };
    let (s, state) = with(options, &events);
    assert_eq!(s, "~~~\nx\n~~~");
    assert_eq!(state.newlines_before_start, 7);
    assert_eq!(text_of(&[Event::Start(tag.clone()), Event::End(tag)]), "````\n````");
}

#[test]
fn closing_fences_carry_the_padding() {
    let tag = Tag::CodeBlock(CodeBlockKind::Fenced(""));
    let events = [
        Event::Start(Tag::BlockQuote),
        Event::Start(tag.clone()),
        Event::Text("a"),
        Event::End(tag.clone()),
    ];
    assert_eq!(text_of(&events), " > \n > ````\n > a\n > ````");
    let events = [
        Event::Start(Tag::List(None)),
        Event::Start(Tag::Item),
        Event::Start(tag.clone()),
        Event::Text("a\nb"),
        Event::End(tag),
    ];
    assert_eq!(text_of(&events), "* \n  ````\n  a\n  b\n  ````");
}

#[test]
fn links() {
    let cases = [
        (LinkType::Inline, "[t](u \"c\")"),
        (LinkType::Reference, "[t](u \"c\")"),
        (LinkType::ReferenceUnknown, "[t](u \"c\")"),
        (LinkType::Collapsed, "[t](u \"c\")"),
        (LinkType::CollapsedUnknown, "[t](u \"c\")"),
        (LinkType::ShortcutUnknown, "[t](u \"c\")"),
        (LinkType::Autolink, "<t>"),
        (LinkType::Email, "<t>"),
        (LinkType::Shortcut, "[t]"),
    ];
    for (link_type, expected) in cases {
        let tag = Tag::Link(link_type, "u", "c");
        let events = [Event::Start(tag.clone()), Event::Text("t"), Event::End(tag)];
        let (s, _) = resumed(&events, State::default());
        assert_eq!(s, expected);
    }
}

#[test]
fn link_destinations_and_titles() {
    let cases = [("u", "", "[](u)"), ("a b", "", "[](<a b>)"), ("a b", "c d", "[](<a b> \"c d\")")];
    for (uri, title, expected) in cases {
        let tag = Tag::Link(LinkType::Inline, uri, title);
        assert_eq!(text_of(&[Event::Start(tag.clone()), Event::End(tag)]), expected);
    }
}

#[test]
fn images() {
    for link_type in [LinkType::Inline, LinkType::Shortcut, LinkType::Autolink] {
        let tag = Tag::Image(link_type, "u", "");
        let events = [Event::Start(tag.clone()), Event::Text("t"), Event::End(tag)];
        let (s, state) = resumed(&events, State::default());
        assert_eq!(s, "![t](u)");
        assert!(state.shortcuts.is_empty());
    }
}

#[test]
fn shortcuts_are_defined_at_the_end() {
    let a = Tag::Link(LinkType::Shortcut, "u v", "t");
    let b = Tag::Link(LinkType::Shortcut, "w", "");
    let events = [
        Event::Start(a.clone()),
        Event::Text("a"),
        Event::Code("c"),
        Event::End(a.clone()),
        Event::Start(b.clone()),
        Event::Text("b"),
        Event::End(b.clone()),
        Event::Start(a.clone()),
        Event::Text("a"),
        Event::Code("c"),
        Event::End(a),
    ];
    let (s, state) = resumed(&events, State::default());
    assert_eq!(s, "[a`c`][b][a`c`]");
    let seen = |a: &str, b: &str, c: &str| (a.to_string(), b.to_string(), c.to_string());
    assert_eq!(
        state.shortcuts,
        vec![seen("a`c`", "u v", "t"), seen("b", "w", ""), seen("a`c`", "u v", "t")]
    );
    assert_eq!(state.current_shortcut_text, None);
    assert_eq!(text_of(&events), "[a`c`][b][a`c`]\n\n[a`c`]: <u v> \"t\"\n[b]: w");
}

#[test]
fn labels_are_what_is_written_between_the_brackets() {
    let link = Tag::Link(LinkType::Shortcut, "u", "");
    let cases = [
        (
            vec![Event::Start(Tag::Emphasis), Event::Text("a"), Event::End(Tag::Emphasis)],
            "[*a*]",
        ),
        (vec![Event::Text("#a")], "[\\#a]"),
        (vec![Event::Code("a`b")], "[`` a`b ``]"),
        (vec![Event::Text("a"), Event::SoftBreak, Event::Text("b")], "[a\nb]"),
        (vec![Event::Html("<b>"), Event::Text("a"), Event::Html("</b>")], "[<b>a</b>]"),
        (
            vec![
                Event::Start(Tag::Image(LinkType::Inline, "i", "")),
                Event::Text("a"),
                Event::End(Tag::Image(LinkType::Inline, "i", "")),
            ],
            "[![a](i)]",
        ),
        (vec![Event::FootnoteReference("n")], "[[^n]]"),
        (vec![], "[]"),
    ];
    for (inner, expected) in cases {
        let mut events = vec![Event::Start(link.clone())];
        events.extend(inner);
        events.push(Event::End(link.clone()));
        assert_eq!(text_of(&events), format!("{}\n\n{}: u", expected, expected));
    }
}

#[test]
fn labels_are_text_and_code_with_other_options() {
    let link = Tag::Link(LinkType::Shortcut, "u", "");
    let events = [
        Event::Start(link.clone()),
        Event::Start(Tag::Emphasis),
        Event::Text("#a"),
        Event::End(Tag::Emphasis),
        Event::SoftBreak,
        Event::Code("b`c"),
        Event::End(link),
    ];
    let (s, state) =
        with(Options { emphasis_token: '_', ..Options::default() }, &events);
    assert_eq!(s, "[_\\#a_\n`` b`c ``]");
    assert_eq!(state.shortcuts[0].0, "#a`b`c`");
    let (_, state) =
        with(Options { code_block_token: '~', ..Options::default() }, &events);
    assert_eq!(state.shortcuts[0].0, "#a`b`c`");
    let (_, state) = resumed(&events, State::default());
    assert_eq!(state.shortcuts[0].0, "*\\#a*\n`` b`c ``");
}

#[test]
fn labels_carry_no_padding() {
    let link = Tag::Link(LinkType::Shortcut, "u", "");
    let events = [
        Event::Start(Tag::BlockQuote),
        Event::Start(link.clone()),
        Event::Text("a"),
        Event::SoftBreak,
        Event::Text("b"),
        Event::End(link),
        Event::End(Tag::BlockQuote),
    ];
    assert_eq!(text_of(&events), " > [a\n > b]\n\n[a\nb]: u");
}

#[test]
fn the_end_of_a_shortcut_that_has_not_begun() {
    let (s, state) = resumed(
        &[Event::End(Tag::Link(LinkType::Shortcut, "u", ""))],
        State::default(),
    );
    assert_eq!(s, "]");
    assert!(state.shortcuts.is_empty());
}

#[test]
fn finalizing_twice_writes_once() {
    let state = State {
        shortcuts: vec![("a".to_string(), "u".to_string(), String::new())],
        newlines_before_start: 4,
        ..State::default()
    };
    let mut s = String::new();
    let state = state.finalize(&mut s).unwrap();
    assert_eq!(s, "\n\n[a]: u");
    assert_eq!(state, State { newlines_before_start: 4, ..State::default() });
    let again = state.clone().finalize(&mut s).unwrap();
    assert_eq!(s, "\n\n[a]: u");
    assert_eq!(again, state);
}

#[test]
fn unordered_list() {
    let events = [
        Event::Start(Tag::List(None)),
        Event::Start(Tag::Item),
        Event::Text("a"),
        Event::End(Tag::Item),
        Event::Start(Tag::Item),
        Event::Text("b"),
        Event::End(Tag::Item),
        Event::End(Tag::List(None)),
    ];
    let (s, state) = resumed(&events, State::default());
    assert_eq!(s, "* a\n* b");
    assert_eq!(state, State {
        newlines_before_start: 2,
        ..State::default()
    });
}

#[test]
fn ordered_list() {
    let events = [
        Event::Start(Tag::List(Some(9))),
        Event::Start(Tag::Item),
        Event::Text("a\nb"),
        Event::End(Tag::Item),
        Event::Start(Tag::Item),
        Event::Text("c\nd"),
        Event::End(Tag::Item),
    ];
    assert_eq!(text_of(&events), "9. a\n   b\n9. c\n   d");
    let options = Options {
        increment_ordered_list_bullets: true,
        ordered_list_token: ')',
        ..Options::default()
    };
    let (s, state) = with(options, &events);
    assert_eq!(s, "9) a\n   b\n10) c\n    d");
    assert_eq!(state.list_stack, vec![Some(11)]);
}

#[test]
fn numbers_are_written_in_decimal() {
    for n in [0, 7, 10, 99, 100, 1234567890, u64::MAX] {
        let events = [Event::Start(Tag::List(Some(n))), Event::Start(Tag::Item), Event::SoftBreak];
        let number = n.to_string();
        let expected = format!("{}. \n{}", number, " ".repeat(number.len() + 2));
        assert_eq!(text_of(&events), expected);
    }
}

#[test]
fn nested_list() {
    let events = [
        Event::Start(Tag::List(None)),
        Event::Start(Tag::Item),
        Event::Text("a"),
        Event::Start(Tag::List(Some(1))),
        Event::Start(Tag::Item),
        Event::Text("b"),
        Event::End(Tag::Item),
        Event::End(Tag::List(Some(1))),
        Event::End(Tag::Item),
        Event::End(Tag::List(None)),
    ];
    let (s, state) = resumed(&events, State::default());
    assert_eq!(s, "* a\n  1. b");
    assert!(state.list_stack.is_empty());
    assert!(state.padding.is_empty());
    assert_eq!(state.newlines_before_start, 2);
}

#[test]
fn a_list_in_a_block_quote_in_a_list_begins_on_the_same_line() {
    let events = [
        Event::Start(Tag::List(None)),
        Event::Start(Tag::Item),
        Event::Start(Tag::BlockQuote),
        Event::Start(Tag::List(None)),
        Event::Start(Tag::Item),
        Event::Text("a"),
    ];
    assert_eq!(text_of(&events), "*  > * a");
}

#[test]
fn an_item_outside_of_a_list() {
    let (s, state) = resumed(&[Event::Start(Tag::Item), Event::Text("a")], State::default());
    assert_eq!(s, "a");
    assert!(state.padding.is_empty());
}

#[test]
fn the_end_of_a_list_that_has_not_begun() {
    let (s, state) = resumed(&[Event::End(Tag::List(None))], State::default());
    assert_eq!(s, "");
    assert_eq!(state.newlines_before_start, 2);
}

#[test]
fn block_quote() {
    let events = [
        Event::Start(Tag::BlockQuote),
        Event::Start(Tag::Paragraph),
        Event::Text("a"),
        Event::SoftBreak,
        Event::Text("b"),
        Event::End(Tag::Paragraph),
        Event::End(Tag::BlockQuote),
    ];
    let (s, state) = resumed(&events, State::default());
    assert_eq!(s, " > a\n > b");
    assert!(state.padding.is_empty());
    let options = Options { blockquote: "> ", newlines_after_blockquote: 1, ..Options::default() };
    let (s, state) = with(options, &events);
    assert_eq!(s, "> a\n> b");
    assert_eq!(state.newlines_before_start, 2);
}

#[test]
fn what_follows_a_block_quote_in_an_item_is_aligned_with_it() {
    let events = [
        Event::Start(Tag::List(None)),
        Event::Start(Tag::Item),
        Event::Start(Tag::BlockQuote),
        Event::Start(Tag::Paragraph),
        Event::Text("q"),
        Event::End(Tag::Paragraph),
        Event::End(Tag::BlockQuote),
        Event::Start(Tag::List(None)),
        Event::Start(Tag::Item),
        Event::Text("n"),
        Event::End(Tag::Item),
        Event::End(Tag::List(None)),
        Event::End(Tag::Item),
        Event::End(Tag::List(None)),
    ];
    let (s, state) = resumed(&events, State::default());
    assert_eq!(s, "*  > q\n   \n   * n");
    assert!(state.padding.is_empty());
}

fn table(alignments: Vec<Alignment>, headers: &[&'static str]) -> Vec<Event<'static>> {
    let mut events = Vec::new();
    events.push(Event::Start(Tag::Table(alignments.clone())));
    events.push(Event::Start(Tag::TableHead));
    for header in headers {
        events.push(Event::Start(Tag::TableCell));
        events.push(Event::Text(header));
        events.push(Event::End(Tag::TableCell));
    }
    events.push(Event::End(Tag::TableHead));
    events.push(Event::Start(Tag::TableRow));
    events.push(Event::Start(Tag::TableCell));
    events.push(Event::Text("x"));
    events.push(Event::End(Tag::TableCell));
    events.push(Event::End(Tag::TableRow));
    events.push(Event::End(Tag::Table(alignments)));
    events
}

#[test]
fn table_alignments() {
    let all = vec![Alignment::Unset, Alignment::Left, Alignment::Center, Alignment::Right];
    let events = table(all, &["abc", "abc", "abc", "abc"]);
    let (s, state) = resumed(&events, State::default());
    assert_eq!(s, "|abc|abc|abc|abc|\n|---|:--|:-:|--:|\n|x|");
    assert_eq!(state, State { newlines_before_start: 2, ..State::default() });
}

#[test]
fn table_with_short_headers() {
    let all = vec![Alignment::Center, Alignment::Left];
    assert_eq!(text_of(&table(all, &["a", ""])), "|a||\n|::|:-|\n|x|");
    let all = vec![Alignment::Unset, Alignment::Left, Alignment::Center, Alignment::Right];
    let one = table(all.clone(), &["a", "a", "a", "a"]);
    assert_eq!(text_of(&one), "|a|a|a|a|\n|-|:|::|-:|\n|x|");
    let two = table(all, &["ab", "ab", "ab", "ab"]);
    assert_eq!(text_of(&two), "|ab|ab|ab|ab|\n|--|:-|::|-:|\n|x|");
}

#[test]
fn table_rules_are_as_long_as_the_bytes_of_their_headers() {
    let all = vec![Alignment::Unset, Alignment::Left, Alignment::Center, Alignment::Right];
    let one = table(all.clone(), &["\u{e9}", "\u{e9}", "\u{e9}", "\u{e9}"]);
    assert!(text_of(&one).ends_with("\n|--|:-|::|-:|\n|x|"));
    let two = table(all, &["a\u{e9}", "a\u{e9}", "a\u{e9}", "a\u{e9}"]);
    assert!(text_of(&two).ends_with("\n|---|:--|:-:|--:|\n|x|"));
}

#[test]
fn table_rules_with_other_options() {
    let options = Options { newlines_after_table: 1, ..Options::default() };
    let all = vec![Alignment::Unset, Alignment::Left, Alignment::Center, Alignment::Right];
    let ascii = table(all.clone(), &["a", "a", "a", "a"]);
    assert_eq!(with(options.clone(), &ascii).0, "|a|a|a|a|\n|-|:|:|:|\n|x|");
    let long = table(all.clone(), &["abc", "abc", "abc", "abc"]);
    assert!(with(options.clone(), &long).0.ends_with("\n|---|:--|:-:|--:|\n|x|"));
    let two = table(all, &["a\u{e9}", "a\u{e9}", "a\u{e9}", "a\u{e9}"]);
    assert!(with(options, &two).0.ends_with("\n|---|:--|::-|-:-|\n|x|"));
}

#[test]
fn table_columns_without_an_alignment_get_no_rule() {
    assert_eq!(text_of(&table(vec![Alignment::Unset], &["ab", "cd"])), "|ab|cd|\n|--|\n|x|");
}

#[test]
fn table_headers_collect_text_and_code() {
    let events = [
        Event::Start(Tag::TableCell),
        Event::Text("a"),
        Event::Code("b"),
        Event::Start(Tag::Emphasis),
        Event::Text("c"),
        Event::End(Tag::Emphasis),
        Event::End(Tag::TableCell),
        Event::Start(Tag::TableCell),
        Event::End(Tag::TableCell),
    ];
    let (s, state) = resumed(&events, State::default());
    assert_eq!(s, "|a`b`*c*|");
    assert_eq!(state.table_headers, vec!["a`b`c", "  "]);
    assert_eq!(state.text_for_header, None);
}

#[test]
fn the_end_of_a_cell_that_has_not_begun() {
    let (_, state) = resumed(&[Event::End(Tag::TableCell)], State::default());
    assert_eq!(state.table_headers, vec!["  "]);
}

#[test]
fn events_that_cannot_be_rendered() {
    let options = Options { emphasis_token: '\u{e9}', ..Options::default() };
    assert!(is_renderable(&Event::Text("\u{e9}a"), &State::default(), &options));
    assert!(is_renderable(&Event::Text(""), &State::default(), &options));

    let counting = Options { increment_ordered_list_bullets: true, ..Options::default() };
    let item = Event::Start(Tag::Item);
    let at = |n| State { list_stack: vec![Some(n)], ..State::default() };
    assert!(!is_renderable(&item, &at(u64::MAX), &counting));
    assert!(is_renderable(&item, &at(u64::MAX - 1), &counting));
    assert!(is_renderable(&item, &at(u64::MAX), &Options::default()));
    assert!(is_renderable(&item, &State::default(), &counting));
}

#[test]
fn newlines_are_configurable() {
    let options = Options {
        newlines_after_headline: 1,
        newlines_after_paragraph: 3,
        newlines_after_rule: 4,
        newlines_after_table: 5,
        newlines_after_list: 6,
        newlines_after_rest: 7,
        ..Options::default()
    };
    let cases = [
        (Event::End(Tag::Heading(HeadingLevel::H1, None, vec![])), 1),
        (Event::End(Tag::Paragraph), 3),
        (Event::Rule, 4),
        (Event::End(Tag::Table(vec![])), 5),
        (Event::End(Tag::List(None)), 6),
        (Event::End(Tag::TableRow), 7),
        (Event::End(Tag::TableHead), 7),
        (Event::End(Tag::Item), 7),
        (Event::End(Tag::FootnoteDefinition("")), 0),
        (Event::End(Tag::Emphasis), 0),
    ];
    for (event, newlines) in cases {
        assert_eq!(with(options.clone(), &[event]).1.newlines_before_start, newlines);
    }
}

#[test]
fn rendering_with_default_options_is_rendering_with_defaults() {
    let events =
        [Event::Start(Tag::Strong), Event::Text("a"), Event::End(Tag::Strong), Event::Rule];
    let mut a = String::new();
    let mut b = String::new();
    let x = cmark(&events, &mut a).unwrap();
    let y = cmark_with_options(&events, &mut b, Options::default()).unwrap();
    assert_eq!(a, b);
    assert_eq!(x, y);
    assert_eq!(a, "**a**---");
}

#[test]
fn default_state() {
    let state = State::default();
    assert_eq!(state.newlines_before_start, 0);
    assert!(state.list_stack.is_empty());
    assert_eq!(state.padding, Padding::default());
    assert!(state.table_alignments.is_empty());
    assert!(state.table_headers.is_empty());
    assert_eq!(state.text_for_header, None);
    assert!(!state.is_in_code_block);
    assert!(!state.last_was_html);
    assert!(!state.last_was_text_without_trailing_newline);
    assert_eq!(state.current_shortcut_text, None);
    assert!(state.shortcuts.is_empty());
}

#[test]
fn items_put_padding_on() {
    let events = [Event::Start(Tag::List(Some(10))), Event::Start(Tag::Item)];
    let (s, state) = resumed(&events, State::default());
    assert_eq!(s, "10. ");
    let stack: Vec<Cow<'static, str>> = state.padding.iter().cloned().collect();
    assert_eq!(stack, vec!["    "]);
}

#[test]
fn text_without_padding_is_kept() {
    assert_eq!(text_of(&[Event::Text("a\n\nb\n")]), "a\n\nb\n");
    assert_eq!(text_of(&[Event::Html("<a>\n\n<b>")]), "<a>\n\n<b>");
}

#[test]
fn a_list_leaves_the_lists_around_it() {
    let options = Options { increment_ordered_list_bullets: true, ..Options::default() };
    let state = State { list_stack: vec![None, Some(4)], ..State::default() };
    let events = [
        Event::Start(Tag::List(Some(7))),
        Event::Start(Tag::Item),
        Event::End(Tag::Item),
        Event::End(Tag::List(Some(7))),
    ];
    let mut s = String::new();
    let state = cmark_resume_with_options(&events, &mut s, Some(state), options).unwrap();
    assert_eq!(s, "\n7. ");
    assert_eq!(state.list_stack, vec![None, Some(4)]);
}

#[test]
fn two_block_quotes_in_an_item_leave_no_padding() {
    let mut events = vec![Event::Start(Tag::List(None)), Event::Start(Tag::Item)];
    for _ in 0..2 {
        events.push(Event::Start(Tag::BlockQuote));
        events.push(Event::Text("q"));
        events.push(Event::End(Tag::BlockQuote));
    }
    let (_, state) = resumed(&events, State::default());
    let stack: Vec<Cow<'static, str>> = state.padding.iter().cloned().collect();
    assert_eq!(stack, vec!["  ", " ", " "]);
    events.push(Event::End(Tag::Item));
    events.push(Event::End(Tag::List(None)));
    let (s, state) = resumed(&events, State::default());
    assert_eq!(s, "*  > q\n   \n    > q");
    assert_eq!(state, State { newlines_before_start: 2, ..State::default() });
    events.push(Event::Start(Tag::Paragraph));
    events.push(Event::Text("a"));
    assert_eq!(text_of(&events), "*  > q\n   \n    > q\n\na");
}

#[test]
fn balanced_events_leave_nothing_behind() {
    let options = Options { blockquote: "  > ", ..Options::default() };
    let quote = [Event::Start(Tag::BlockQuote), Event::Text("q"), Event::End(Tag::BlockQuote)];
    let mut events = Vec::new();
    for _ in 0..3 {
        events.extend(quote.clone());
        events.push(Event::Start(Tag::List(Some(1))));
        events.push(Event::Start(Tag::Item));
        events.extend(quote.clone());
        events.extend(quote.clone());
        events.push(Event::Start(Tag::List(None)));
        events.push(Event::Start(Tag::Item));
        events.extend(quote.clone());
        events.push(Event::End(Tag::Item));
        events.push(Event::End(Tag::List(None)));
        events.extend(quote.clone());
        events.push(Event::End(Tag::Item));
        events.push(Event::End(Tag::List(Some(1))));
    }
    let (_, state) = with(options, &events);
    assert_eq!(state.padding, Padding::default());
    assert!(state.list_stack.is_empty());
    let (_, state) = resumed(&events, State::default());
    assert_eq!(state.padding, Padding::default());
    assert!(state.list_stack.is_empty());
}
