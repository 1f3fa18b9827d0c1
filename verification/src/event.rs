//! The events of a Markdown document.

use vstd::prelude::*;
use crate::assemble::{BlockEvent, EventView};
use crate::info::{BlockKind, KindView};

verus! {

/// How a link or an image is written in the document.
#[derive(Debug, Clone, Copy, PartialEq, Eq, Structural)]
pub enum LinkKind {
    /// `[title](url)`
    Inline,
    /// `[title][label]`
    Reference,
    /// The same, with a label that the document does not define.
    ReferenceUnknown,
    /// `[label][]`
    Collapsed,
    /// The same, with a label that the document does not define.
    CollapsedUnknown,
    /// `[label]`
    Shortcut,
    /// The same, with a label that the document does not define.
    ShortcutUnknown,
    /// `<url>`
    Autolink,
    /// `<address>`
    Email,
}

/// An element of a document that holds other elements.
pub enum MdTag {
    Paragraph,
    /// A heading, with its level.
    Heading(u8),
    BlockQuote,
    CodeBlock(BlockKind),
    /// A list. The number is that of the first item, where the list is
    /// numbered.
    List(Option<u64>),
    Item,
    FootnoteDefinition,
    Table,
    TableHead,
    TableRow,
    TableCell,
    Emphasis,
    Strong,
    Strikethrough,
    /// A link, with its address and its title.
    Link(LinkKind, String, String),
    /// An image, with its address and its title.
    Image(LinkKind, String, String),
}

/// What an `MdTag` says.
pub enum MdTagView {
    Paragraph,
    Heading(u8),
    BlockQuote,
    CodeBlock(KindView),
    List(Option<u64>),
    Item,
    FootnoteDefinition,
    Table,
    TableHead,
    TableRow,
    TableCell,
    Emphasis,
    Strong,
    Strikethrough,
    Link(LinkKind, Seq<char>, Seq<char>),
    Image(LinkKind, Seq<char>, Seq<char>),
}

impl View for MdTag {
    type V = MdTagView;

    open spec fn view(&self) -> MdTagView {
        match self {
            MdTag::Paragraph => MdTagView::Paragraph,
            MdTag::Heading(level) => MdTagView::Heading(*level),
            MdTag::BlockQuote => MdTagView::BlockQuote,
            MdTag::CodeBlock(kind) => MdTagView::CodeBlock(kind@),
            MdTag::List(first) => MdTagView::List(*first),
            MdTag::Item => MdTagView::Item,
            MdTag::FootnoteDefinition => MdTagView::FootnoteDefinition,
            MdTag::Table => MdTagView::Table,
            MdTag::TableHead => MdTagView::TableHead,
            MdTag::TableRow => MdTagView::TableRow,
            MdTag::TableCell => MdTagView::TableCell,
            MdTag::Emphasis => MdTagView::Emphasis,
            MdTag::Strong => MdTagView::Strong,
            MdTag::Strikethrough => MdTagView::Strikethrough,
            MdTag::Link(kind, url, title) => MdTagView::Link(*kind, url@, title@),
            MdTag::Image(kind, url, title) => MdTagView::Image(*kind, url@, title@),
        }
    }
}

/// One event of a Markdown document.
pub enum MdEvent {
    /// An element opens.
    Start(MdTag),
    /// An element closes.
    End(MdTag),
    /// Literal text.
    Text(String),
    /// Code within a line.
    Code(String),
    /// Raw HTML.
    Html(String),
    /// A reference to a footnote, with its label.
    FootnoteReference(String),
    SoftBreak,
    HardBreak,
    /// A horizontal rule.
    Rule,
    /// The box of a task, ticked or not.
    TaskListMarker(bool),
}

/// What an `MdEvent` says.
pub enum MdEventView {
    Start(MdTagView),
    End(MdTagView),
    Text(Seq<char>),
    Code(Seq<char>),
    Html(Seq<char>),
    FootnoteReference(Seq<char>),
    SoftBreak,
    HardBreak,
    Rule,
    TaskListMarker(bool),
}

impl View for MdEvent {
    type V = MdEventView;

    open spec fn view(&self) -> MdEventView {
        match self {
            MdEvent::Start(tag) => MdEventView::Start(tag@),
            MdEvent::End(tag) => MdEventView::End(tag@),
            MdEvent::Text(text) => MdEventView::Text(text@),
            MdEvent::Code(code) => MdEventView::Code(code@),
            MdEvent::Html(html) => MdEventView::Html(html@),
            MdEvent::FootnoteReference(label) => MdEventView::FootnoteReference(label@),
            MdEvent::SoftBreak => MdEventView::SoftBreak,
            MdEvent::HardBreak => MdEventView::HardBreak,
            MdEvent::Rule => MdEventView::Rule,
            MdEvent::TaskListMarker(ticked) => MdEventView::TaskListMarker(*ticked),
        }
    }
}

/// What a run of events says, event by event.
pub open spec fn md_events_view(events: Seq<MdEvent>) -> Seq<MdEventView> {
    Seq::new(events.len(), |i: int| events[i]@)
}

/// What an event is to the gathering of code blocks: the opening of a code
/// block with its kind, the closing of one, text, or nothing of interest.
pub open spec fn block_event_of(event: MdEventView) -> EventView {
    match event {
        MdEventView::Start(MdTagView::CodeBlock(kind)) => EventView::Start(kind),
        MdEventView::End(MdTagView::CodeBlock(_)) => EventView::End,
        MdEventView::Text(text) => EventView::Text(text),
        _ => EventView::Other,
    }
}

impl MdEvent {
    /// What the event is to the gathering of code blocks.
    pub fn block_event(&self) -> (r: BlockEvent)
        ensures
            r@ == block_event_of(self@),
    {
        match self {
            MdEvent::Start(MdTag::CodeBlock(BlockKind::Fenced(header))) => BlockEvent::Start(
                BlockKind::Fenced(header.clone()),
            ),
            MdEvent::Start(MdTag::CodeBlock(BlockKind::Indented)) => BlockEvent::Start(
                BlockKind::Indented,
            ),
            MdEvent::End(MdTag::CodeBlock(_)) => BlockEvent::End,
            MdEvent::Text(text) => BlockEvent::Text(text.clone()),
            _ => BlockEvent::Other,
        }
    }
}

} // verus!
