use pulldown_cmark::{html, Event as SourceEvent, Options as Extensions, Parser, Tag as SourceTag};

use pulldown_cmark_to_cmark::{
    cmark, cmark_with_options, Alignment, CodeBlockKind, Event, HeadingLevel, LinkType, Options,
    Tag,
};

fn alignment(a: &pulldown_cmark::Alignment) -> Alignment {
    match a {
        pulldown_cmark::Alignment::None => Alignment::Unset,
        pulldown_cmark::Alignment::Left => Alignment::Left,
        pulldown_cmark::Alignment::Center => Alignment::Center,
        pulldown_cmark::Alignment::Right => Alignment::Right,
    }
}

fn heading_level(level: pulldown_cmark::HeadingLevel) -> HeadingLevel {
    match level {
        pulldown_cmark::HeadingLevel::H1 => HeadingLevel::H1,
        pulldown_cmark::HeadingLevel::H2 => HeadingLevel::H2,
        pulldown_cmark::HeadingLevel::H3 => HeadingLevel::H3,
        pulldown_cmark::HeadingLevel::H4 => HeadingLevel::H4,
        pulldown_cmark::HeadingLevel::H5 => HeadingLevel::H5,
        pulldown_cmark::HeadingLevel::H6 => HeadingLevel::H6,
    }
}

fn link_type(link_type: pulldown_cmark::LinkType) -> LinkType {
    match link_type {
        pulldown_cmark::LinkType::Inline => LinkType::Inline,
        pulldown_cmark::LinkType::Reference => LinkType::Reference,
        pulldown_cmark::LinkType::ReferenceUnknown => LinkType::ReferenceUnknown,
        pulldown_cmark::LinkType::Collapsed => LinkType::Collapsed,
        pulldown_cmark::LinkType::CollapsedUnknown => LinkType::CollapsedUnknown,
        pulldown_cmark::LinkType::Shortcut => LinkType::Shortcut,
        pulldown_cmark::LinkType::ShortcutUnknown => LinkType::ShortcutUnknown,
        pulldown_cmark::LinkType::Autolink => LinkType::Autolink,
        pulldown_cmark::LinkType::Email => LinkType::Email,
    }
}

fn tag<'e>(tag: &'e pulldown_cmark::Tag<'_>) -> Tag<'e> {
    match tag {
        SourceTag::Paragraph => Tag::Paragraph,
        SourceTag::Heading(level, id, classes) => {
            Tag::Heading(heading_level(*level), *id, classes.clone())
        }
        SourceTag::BlockQuote => Tag::BlockQuote,
        SourceTag::CodeBlock(pulldown_cmark::CodeBlockKind::Indented) => {
            Tag::CodeBlock(CodeBlockKind::Indented)
        }
        SourceTag::CodeBlock(pulldown_cmark::CodeBlockKind::Fenced(info)) => {
            Tag::CodeBlock(CodeBlockKind::Fenced(info))
        }
        SourceTag::List(first) => Tag::List(*first),
        SourceTag::Item => Tag::Item,
        SourceTag::FootnoteDefinition(name) => Tag::FootnoteDefinition(name),
        SourceTag::Table(alignments) => Tag::Table(alignments.iter().map(alignment).collect()),
        SourceTag::TableHead => Tag::TableHead,
        SourceTag::TableRow => Tag::TableRow,
        SourceTag::TableCell => Tag::TableCell,
        SourceTag::Emphasis => Tag::Emphasis,
        SourceTag::Strong => Tag::Strong,
        SourceTag::Strikethrough => Tag::Strikethrough,
        SourceTag::Link(kind, uri, title) => Tag::Link(link_type(*kind), uri, title),
        SourceTag::Image(kind, uri, title) => Tag::Image(link_type(*kind), uri, title),
    }
}

fn event<'e>(event: &'e pulldown_cmark::Event<'_>) -> Event<'e> {
    match event {
        SourceEvent::Start(t) => Event::Start(tag(t)),
        SourceEvent::End(t) => Event::End(tag(t)),
        SourceEvent::Text(text) => Event::Text(text),
        SourceEvent::Code(text) => Event::Code(text),
        SourceEvent::Html(text) => Event::Html(text),
        SourceEvent::FootnoteReference(name) => Event::FootnoteReference(name),
        SourceEvent::SoftBreak => Event::SoftBreak,
        SourceEvent::HardBreak => Event::HardBreak,
        SourceEvent::Rule => Event::Rule,
        SourceEvent::TaskListMarker(checked) => Event::TaskListMarker(*checked),
    }
}

fn parsed(markdown: &str) -> Vec<pulldown_cmark::Event<'_>> {
    Parser::new_ext(markdown, Extensions::all()).collect()
}

fn rendered(markdown: &str) -> String {
    let source = parsed(markdown);
    let events: Vec<Event<'_>> = source.iter().map(event).collect();
    let mut s = String::new();
    cmark(&events, &mut s).unwrap();
    s
}

fn html_of(markdown: &str) -> String {
    let mut s = String::new();
    html::push_html(&mut s, parsed(markdown).into_iter());
    s
}

const DOCUMENTS: [&str; 38] = [
    "plain text",
    "two\nlines",
    "a hard  \nbreak",
    "# one\n\n## two\n\ntext",
    "# title { #id .class1 .class2 }\n\ntext",
    "*emphasis* **strong** ~~gone~~ `code` `` co`de ``",
    "* a\n* b\n* c",
    "1. a\n1. b\n\ntext",
    "* a\n  * b\n    * c\n  * d\n* e",
    "* a\n\n  second paragraph\n\n* b",
    "* [ ] open\n* [x] done",
    " > quoted\n > text\n\nplain",
    " > * a\n > * b",
    "*  > block quote\n   > more block quote",
    "````rust\nfn main() {}\n````\n\ntext",
    "    indented\n    code\n\ntext",
    "[inline](http://example.com) [titled](u \"title\") ![image](u)",
    "<http://example.com> <john@example.org>",
    "[short] and [short] and [other]\n\n[short]: u \"t\"\n[other]: <a b>",
    "|left|center|right|\n|:--|:-:|--:|\n|x|y|z|",
    "text\n\n---\n\ntext",
    "|a|b|c|d|\n|:-|:-:|-:|-|\n|x|y|z|w|",
    "|ab|cd|ef|gh|\n|:-|:-:|-:|-|\n|x|y|z|w|",
    "|\u{e9}|\u{e9}|\u{e9}\u{e9}|\n|:-:|-:|-:|\n|x|y|z|",
    "`` a`b `` ``` c``d ``` ```` `e```f ````",
    "[*a*] and [**b** `c`]\n\n[*a*]: u\n[**b** `c`]: v",
    "[a\nb] and [`` c`d ``]\n\n[a b]: u\n[`` c`d ``]: v",
    " > [a\n > b]\n\n[a b]: u",
    "* [a\n  b] and [*c*]\n\n[a b]: u\n[*c*]: v",
    " > ```\n > code\n > ```\n >\n > text",
    "*  > one\n\n   text\n\n   > two\n\nplain",
    " > <b>\n > text\n > </b>",
    "1. a\n\n   ```\n   code\n   ```\n\n1. b",
    " > |a|b|\n > |:-:|-:|\n > |x|y|",
    " > [a](u \"one\n > two\") and `b\n > c`",
    "* ![a](u \"one\n  two\")\n* b",
    "[a] [\\#b]\n\n[a]: u \"t\"\n[\\#b]: v",
    "\\# no heading\n\n\\* no item",
];

#[test]
fn rendering_keeps_the_html() {
    for markdown in DOCUMENTS {
        assert_eq!(html_of(&rendered(markdown)), html_of(markdown), "{:?}", rendered(markdown));
    }
}

#[test]
fn documents() {
    assert_eq!(rendered("a\n===\n\nb\n-"), "# a\n\n## b");
    assert_eq!(rendered("- a\n- b"), "* a\n* b");
    assert_eq!(rendered("> a\nb"), " > a\n > b");
    assert_eq!(rendered("```\na\n```"), "\n````\na\n````");
    assert_eq!(rendered("[a]\n\n[a]: u"), "[a]\n\n[a]: u");
    assert_eq!(rendered("a|b\n-|:-:\nc|d"), "|a|b|\n|-|::|\n|c|d|");
    assert_eq!(rendered("<b>\n\n# a"), "<b>\n\n# a");
}

#[test]
fn documents_with_options() {
    let source = parsed("1. a\n2. b\n\n*c* **d**\n\n> e");
    let events: Vec<Event<'_>> = source.iter().map(event).collect();
    let options = Options {
        increment_ordered_list_bullets: true,
        ordered_list_token: ')',
        emphasis_token: '_',
        strong_token: "__",
        blockquote: "> ",
        ..Options::default()
    };
    let mut s = String::new();
    cmark_with_options(&events, &mut s, options).unwrap();
    assert_eq!(s, "1) a\n2) b\n\n_c_ __d__\n\n> e");
}
