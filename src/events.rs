//! Markdown events as plain values, and the parser that produces them.
//!
//! Parsing itself is pulldown-cmark's work; this module only carries its
//! events over into types that the converter's contracts can speak of.

use pulldown_cmark::{CodeBlockKind, Event, Options, Parser, Tag, TagEnd};
use vstd::prelude::*;

verus! {

/// An opening tag, with what the converter reads from it.
pub enum MdTag {
    Paragraph,
    /// Heading level, 1 to 6.
    Heading(u8),
    BlockQuote,
    /// Code block with its info string (empty for indented blocks).
    CodeBlock(Vec<char>),
    /// List; `true` when ordered.
    List(bool),
    Item,
    /// Table with its column count.
    Table(usize),
    TableHead,
    TableRow,
    TableCell,
    Emphasis,
    Strong,
    Strikethrough,
    /// Link with its destination.
    Link(Vec<char>),
    Other,
}

/// A closing tag.
#[derive(Clone, Copy)]
pub enum MdTagEnd {
    Paragraph,
    Heading,
    BlockQuote,
    CodeBlock,
    List,
    Item,
    Table,
    TableHead,
    TableRow,
    TableCell,
    Emphasis,
    Strong,
    Strikethrough,
    Link,
    Other,
}

/// One parser event.
pub enum MdEvent {
    Start(MdTag),
    End(MdTagEnd),
    Text(Vec<char>),
    Code(Vec<char>),
    SoftBreak,
    HardBreak,
    Rule,
    Other,
}

/// An event with the byte range of the Markdown source it came from.
pub struct SrcEvent {
    pub event: MdEvent,
    pub start: usize,
    pub end: usize,
}

/// An opening tag as a value.
pub enum TagV {
    Paragraph,
    Heading(u8),
    BlockQuote,
    CodeBlock(Seq<char>),
    List(bool),
    Item,
    Table(usize),
    TableHead,
    TableRow,
    TableCell,
    Emphasis,
    Strong,
    Strikethrough,
    Link(Seq<char>),
    Other,
}

/// An event as a value.
pub enum EventV {
    Start(TagV),
    End(MdTagEnd),
    Text(Seq<char>),
    Code(Seq<char>),
    SoftBreak,
    HardBreak,
    Rule,
    Other,
}

/// An event with its source byte range, as a value.
pub struct SrcEventV {
    pub event: EventV,
    pub start: usize,
    pub end: usize,
}

impl View for MdTag {
    type V = TagV;

    open spec fn view(&self) -> TagV {
        match self {
            MdTag::Paragraph => TagV::Paragraph,
            MdTag::Heading(l) => TagV::Heading(*l),
            MdTag::BlockQuote => TagV::BlockQuote,
            MdTag::CodeBlock(lang) => TagV::CodeBlock(lang@),
            MdTag::List(o) => TagV::List(*o),
            MdTag::Item => TagV::Item,
            MdTag::Table(n) => TagV::Table(*n),
            MdTag::TableHead => TagV::TableHead,
            MdTag::TableRow => TagV::TableRow,
            MdTag::TableCell => TagV::TableCell,
            MdTag::Emphasis => TagV::Emphasis,
            MdTag::Strong => TagV::Strong,
            MdTag::Strikethrough => TagV::Strikethrough,
            MdTag::Link(url) => TagV::Link(url@),
            MdTag::Other => TagV::Other,
        }
    }
}

impl View for MdEvent {
    type V = EventV;

    open spec fn view(&self) -> EventV {
        match self {
            MdEvent::Start(t) => EventV::Start(t@),
            MdEvent::End(t) => EventV::End(*t),
            MdEvent::Text(x) => EventV::Text(x@),
            MdEvent::Code(x) => EventV::Code(x@),
            MdEvent::SoftBreak => EventV::SoftBreak,
            MdEvent::HardBreak => EventV::HardBreak,
            MdEvent::Rule => EventV::Rule,
            MdEvent::Other => EventV::Other,
        }
    }
}

impl View for SrcEvent {
    type V = SrcEventV;

    open spec fn view(&self) -> SrcEventV {
        SrcEventV { event: self.event@, start: self.start, end: self.end }
    }
}

/// The values of a sequence of events.
pub open spec fn event_views(v: Seq<SrcEvent>) -> Seq<SrcEventV> {
    v.map_values(|e: SrcEvent| e@)
}

/// The events that pulldown-cmark produces for a Markdown text, with tables
/// and strikethrough enabled when `extended`.
pub uninterp spec fn markdown_events(md: Seq<char>, extended: bool) -> Seq<SrcEventV>;

/// Relies on pulldown_cmark::Parser::new_ext(..).into_offset_iter(): the
/// event stream depends on the text and options alone, and each event's
/// range is a byte range of the text.
#[verifier::external_body]
pub(crate) fn parse_events(md: &str, extended: bool) -> (r: Vec<SrcEvent>)
    ensures
        event_views(r@) == markdown_events(md@, extended),
        forall|i: int|
            0 <= i < r@.len() ==> (#[trigger] r@[i]).start <= r@[i].end && r@[i].end <= md.len(),
{
    let opts = if extended {
        Options::ENABLE_TABLES | Options::ENABLE_STRIKETHROUGH
    } else {
        Options::empty()
    };
    Parser::new_ext(md, opts)
        .into_offset_iter()
        .map(|(e, r)| SrcEvent { event: event_of(e), start: r.start, end: r.end })
        .collect()
}

/// pulldown-cmark's event, carried opaquely into the conversion helpers below.
#[verifier::external_type_specification]
#[verifier::external_body]
pub struct ExEvent<'a>(Event<'a>);

/// pulldown-cmark's opening tag.
#[verifier::external_type_specification]
#[verifier::external_body]
pub struct ExTag<'a>(Tag<'a>);

/// pulldown-cmark's closing tag.
#[verifier::external_type_specification]
#[verifier::external_body]
pub struct ExTagEnd(TagEnd);

/// Relies on pulldown_cmark::Event: moves one event's variant and payload over.
#[verifier::external_body]
fn event_of(e: Event) -> MdEvent {
    match e {
        Event::Start(t) => MdEvent::Start(tag_of(t)),
        Event::End(t) => MdEvent::End(tag_end_of(t)),
        Event::Text(s) => MdEvent::Text(s.chars().collect()),
        Event::Code(s) => MdEvent::Code(s.chars().collect()),
        Event::SoftBreak => MdEvent::SoftBreak,
        Event::HardBreak => MdEvent::HardBreak,
        Event::Rule => MdEvent::Rule,
        _ => MdEvent::Other,
    }
}

/// Relies on pulldown_cmark::Tag: moves the block-level variants over.
#[verifier::external_body]
fn tag_of(t: Tag) -> MdTag {
    match t {
        Tag::Paragraph => MdTag::Paragraph,
        Tag::Heading { level, .. } => MdTag::Heading(level as u8),
        Tag::BlockQuote(_) => MdTag::BlockQuote,
        Tag::CodeBlock(CodeBlockKind::Fenced(l)) => MdTag::CodeBlock(l.chars().collect()),
        Tag::CodeBlock(_) => MdTag::CodeBlock(Vec::new()),
        Tag::List(first) => MdTag::List(first.is_some()),
        Tag::Item => MdTag::Item,
        Tag::Table(aligns) => MdTag::Table(aligns.len()),
        t => inner_tag_of(t),
    }
}

/// Relies on pulldown_cmark::Tag: moves the table-part and inline variants over.
#[verifier::external_body]
fn inner_tag_of(t: Tag) -> MdTag {
    match t {
        Tag::TableHead => MdTag::TableHead,
        Tag::TableRow => MdTag::TableRow,
        Tag::TableCell => MdTag::TableCell,
        Tag::Emphasis => MdTag::Emphasis,
        Tag::Strong => MdTag::Strong,
        Tag::Strikethrough => MdTag::Strikethrough,
        Tag::Link { dest_url, .. } => MdTag::Link(dest_url.chars().collect()),
        _ => MdTag::Other,
    }
}

/// Relies on pulldown_cmark::TagEnd: moves the block-level variants over.
#[verifier::external_body]
fn tag_end_of(t: TagEnd) -> MdTagEnd {
    match t {
        TagEnd::Paragraph => MdTagEnd::Paragraph,
        TagEnd::Heading(_) => MdTagEnd::Heading,
        TagEnd::BlockQuote(_) => MdTagEnd::BlockQuote,
        TagEnd::CodeBlock => MdTagEnd::CodeBlock,
        TagEnd::List(_) => MdTagEnd::List,
        TagEnd::Item => MdTagEnd::Item,
        TagEnd::Table => MdTagEnd::Table,
        t => inner_tag_end_of(t),
    }
}

/// Relies on pulldown_cmark::TagEnd: moves the table-part and inline variants over.
#[verifier::external_body]
fn inner_tag_end_of(t: TagEnd) -> MdTagEnd {
    match t {
        TagEnd::TableHead => MdTagEnd::TableHead,
        TagEnd::TableRow => MdTagEnd::TableRow,
        TagEnd::TableCell => MdTagEnd::TableCell,
        TagEnd::Emphasis => MdTagEnd::Emphasis,
        TagEnd::Strong => MdTagEnd::Strong,
        TagEnd::Strikethrough => MdTagEnd::Strikethrough,
        TagEnd::Link => MdTagEnd::Link,
        _ => MdTagEnd::Other,
    }
}

/// Relies on str::chars: the characters of `s`, in order.
#[verifier::external_body]
pub(crate) fn chars_of(s: &str) -> (r: Vec<char>)
    ensures
        r@ == s@,
{
    s.chars().collect()
}

/// Relies on String's FromIterator<char>: the string of these characters.
#[verifier::external_body]
pub(crate) fn string_of(v: &Vec<char>) -> (r: String)
    ensures
        r@ == v@,
{
    v.iter().collect()
}

} // verus!
