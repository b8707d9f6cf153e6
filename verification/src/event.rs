//! The events of a Markdown document, in the order in which its tree is walked.
use vstd::prelude::*;

verus! {

/// The alignment of the text in a table column.
#[derive(Copy, Clone, Debug, PartialEq, Eq, PartialOrd, Ord, Hash, Structural)]
pub enum Alignment {
    /// No alignment was asked for.
    Unset,
    Left,
    Center,
    Right,
}

/// The level of a heading.
#[derive(Copy, Clone, Debug, PartialEq, Eq, PartialOrd, Ord, Hash, Structural)]
pub enum HeadingLevel {
    H1,
    H2,
    H3,
    H4,
    H5,
    H6,
}

/// The form in which a link or an image was written.
#[derive(Copy, Clone, Debug, PartialEq, Eq, Structural)]
pub enum LinkType {
    /// `[foo](bar)`
    Inline,
    /// `[foo][bar]`
    Reference,
    /// `[foo][bar]`, with a destination that the document does not define.
    ReferenceUnknown,
    /// `[foo][]`
    Collapsed,
    /// `[foo][]`, with a destination that the document does not define.
    CollapsedUnknown,
    /// `[foo]`
    Shortcut,
    /// `[foo]`, with a destination that the document does not define.
    ShortcutUnknown,
    /// `<http://foo.bar/baz>`
    Autolink,
    /// `<john@example.org>`
    Email,
}

/// The form in which a code block was written.
#[derive(Copy, Clone, Debug, PartialEq, Eq)]
pub enum CodeBlockKind<'a> {
    Indented,
    /// The text behind the opening fence, which may be empty.
    Fenced(&'a str),
}

/// The elements that hold other elements.
#[derive(Clone, Debug, PartialEq, Eq)]
pub enum Tag<'a> {
    Paragraph,
    /// A heading, with its level, its identifier and its classes.
    Heading(HeadingLevel, Option<&'a str>, Vec<&'a str>),
    BlockQuote,
    CodeBlock(CodeBlockKind<'a>),
    /// A list, with the number of its first item if it is ordered.
    List(Option<u64>),
    Item,
    /// The definition of a footnote, with its label.
    FootnoteDefinition(&'a str),
    /// A table, with the alignment of each of its columns.
    Table(Vec<Alignment>),
    TableHead,
    TableRow,
    TableCell,
    Emphasis,
    Strong,
    Strikethrough,
    /// A link, with its form, its destination and its title.
    Link(LinkType, &'a str, &'a str),
    /// An image, with its form, its destination and its title.
    Image(LinkType, &'a str, &'a str),
}

/// One step of the walk through a document.
#[derive(Clone, Debug, PartialEq, Eq)]
pub enum Event<'a> {
    /// An element begins.
    Start(Tag<'a>),
    /// An element ends.
    End(Tag<'a>),
    Text(&'a str),
    /// Inline code.
    Code(&'a str),
    Html(&'a str),
    /// A reference to a footnote, with its label.
    FootnoteReference(&'a str),
    SoftBreak,
    HardBreak,
    /// A horizontal rule.
    Rule,
    /// The box in front of a task, and whether it is checked.
    TaskListMarker(bool),
}

} // verus!
