//! Markdown event stream.
//!
//! `pulldown-cmark` turns Markdown text into a flat stream of start/end/text
//! events. The library keeps its own copy of the parts of each event that the
//! article parser reads.

use pulldown_cmark::{CodeBlockKind, Event, Tag, TagEnd};
use vstd::prelude::*;

verus! {

/// The start of a Markdown element.
#[derive(Debug)]
pub enum MdTag {
    Paragraph,
    /// Heading of level 1..=6.
    Heading(u8),
    BlockQuote,
    /// Code block; the language of a fenced block, `None` for an indented one.
    CodeBlock(Option<String>),
    /// List; the number of the first item of an ordered list.
    List(Option<u64>),
    Item,
    Table,
    TableHead,
    TableRow,
    TableCell,
    Emphasis,
    Strong,
    Link { dest_url: String, title: String },
    Image { dest_url: String, title: String },
    /// Any element the article parser does not read.
    Other,
}

/// The end of a Markdown element.
#[derive(Debug, Clone, Copy, PartialEq, Eq, Structural)]
pub enum MdTagEnd {
    Paragraph,
    Heading(u8),
    BlockQuote,
    CodeBlock,
    /// List end; whether the list was ordered.
    List(bool),
    Item,
    Table,
    TableHead,
    TableRow,
    TableCell,
    Emphasis,
    Strong,
    Link,
    Image,
    Other,
}

#[derive(Debug)]
pub enum MdEvent {
    Start(MdTag),
    End(MdTagEnd),
    Text(String),
    Code(String),
    Html(String),
    InlineHtml(String),
    SoftBreak,
    HardBreak,
    Rule,
    /// Any event the article parser does not read.
    Other,
}

pub enum TagM {
    Paragraph,
    Heading(u8),
    BlockQuote,
    CodeBlock(Option<Seq<char>>),
    List(Option<u64>),
    Item,
    Table,
    TableHead,
    TableRow,
    TableCell,
    Emphasis,
    Strong,
    Link { dest_url: Seq<char>, title: Seq<char> },
    Image { dest_url: Seq<char>, title: Seq<char> },
    Other,
}

pub enum EventM {
    Start(TagM),
    End(MdTagEnd),
    Text(Seq<char>),
    Code(Seq<char>),
    Html(Seq<char>),
    InlineHtml(Seq<char>),
    SoftBreak,
    HardBreak,
    Rule,
    Other,
}

impl MdTag {
    pub open spec fn model(&self) -> TagM {
        match self {
            MdTag::Paragraph => TagM::Paragraph,
            MdTag::Heading(l) => TagM::Heading(*l),
            MdTag::BlockQuote => TagM::BlockQuote,
            MdTag::CodeBlock(lang) => TagM::CodeBlock(
                match lang {
                    Some(s) => Some(s@),
                    None => None,
                },
            ),
            MdTag::List(n) => TagM::List(*n),
            MdTag::Item => TagM::Item,
            MdTag::Table => TagM::Table,
            MdTag::TableHead => TagM::TableHead,
            MdTag::TableRow => TagM::TableRow,
            MdTag::TableCell => TagM::TableCell,
            MdTag::Emphasis => TagM::Emphasis,
            MdTag::Strong => TagM::Strong,
            MdTag::Link { dest_url, title } => TagM::Link { dest_url: dest_url@, title: title@ },
            MdTag::Image { dest_url, title } => TagM::Image { dest_url: dest_url@, title: title@ },
            MdTag::Other => TagM::Other,
        }
    }
}

impl MdEvent {
    pub open spec fn model(&self) -> EventM {
        match self {
            MdEvent::Start(t) => EventM::Start(t.model()),
            MdEvent::End(t) => EventM::End(*t),
            MdEvent::Text(s) => EventM::Text(s@),
            MdEvent::Code(s) => EventM::Code(s@),
            MdEvent::Html(s) => EventM::Html(s@),
            MdEvent::InlineHtml(s) => EventM::InlineHtml(s@),
            MdEvent::SoftBreak => EventM::SoftBreak,
            MdEvent::HardBreak => EventM::HardBreak,
            MdEvent::Rule => EventM::Rule,
            MdEvent::Other => EventM::Other,
        }
    }
}

pub open spec fn events_model(s: Seq<MdEvent>) -> Seq<EventM> {
    s.map_values(|e: MdEvent| e.model())
}

/// `pulldown_cmark::Options::ENABLE_TABLES`.
pub const ENABLE_TABLES: u32 = 2;

/// `pulldown_cmark::Options::ENABLE_STRIKETHROUGH`.
pub const ENABLE_STRIKETHROUGH: u32 = 8;

/// `pulldown_cmark::Options::ENABLE_SMART_PUNCTUATION`.
pub const ENABLE_SMART_PUNCTUATION: u32 = 32;

/// The event stream `pulldown-cmark` produces for `text` with the option bits
/// `options`. What the CommonMark parser emits is not restated here.
pub uninterp spec fn markdown_events(text: Seq<char>, options: u32) -> Seq<EventM>;

/// A heading event carries a level in `1..=6`; any other event passes.
pub open spec fn heading_level_ok(e: EventM) -> bool {
    match e {
        EventM::Start(TagM::Heading(l)) => 1 <= l <= 6,
        EventM::End(MdTagEnd::Heading(l)) => 1 <= l <= 6,
        _ => true,
    }
}

/// Every heading event of `ev` carries a level in `1..=6`.
pub open spec fn heading_levels_valid(ev: Seq<EventM>) -> bool {
    forall|i: int| 0 <= i < ev.len() ==> heading_level_ok(#[trigger] ev[i])
}

/// Runs `pulldown_cmark::Parser::new_ext` over `text` with the options whose
/// bits are `options` and copies every event into an `MdEvent`. The contract
/// claims that the result is determined by the text and the options, and that
/// each heading level is the number of a `HeadingLevel` (`H1` = 1 to `H6` =
/// 6); what the CommonMark parser emits is not restated.
#[verifier::external_body]
pub(crate) fn parse_markdown(text: &str, options: u32) -> (r: Vec<MdEvent>)
    ensures
        events_model(r@) == markdown_events(text@, options),
        heading_levels_valid(events_model(r@)),
{
    let opts = pulldown_cmark::Options::from_bits_truncate(options);
    pulldown_cmark::Parser::new_ext(text, opts).map(event_from).collect()
}

/// `pulldown_cmark::Event`, carried opaquely.
#[verifier::external_type_specification]
#[verifier::external_body]
pub struct ExEvent<'a>(Event<'a>);

/// `pulldown_cmark::Tag`, carried opaquely.
#[verifier::external_type_specification]
#[verifier::external_body]
pub struct ExTag<'a>(Tag<'a>);

/// `pulldown_cmark::TagEnd`, carried opaquely.
#[verifier::external_type_specification]
#[verifier::external_body]
pub struct ExTagEnd(TagEnd);

/// Copies one `pulldown_cmark::Event`, variant by variant.
#[verifier::external_body]
fn event_from(e: Event<'_>) -> MdEvent {
    match e {
        Event::Start(t) => MdEvent::Start(tag_from(t)),
        Event::End(t) => MdEvent::End(tag_end_from(t)),
        Event::Text(s) => MdEvent::Text(s.to_string()),
        Event::Code(s) => MdEvent::Code(s.to_string()),
        Event::Html(s) => MdEvent::Html(s.to_string()),
        Event::InlineHtml(s) => MdEvent::InlineHtml(s.to_string()),
        Event::SoftBreak => MdEvent::SoftBreak,
        Event::HardBreak => MdEvent::HardBreak,
        Event::Rule => MdEvent::Rule,
        _ => MdEvent::Other,
    }
}

/// Copies one `pulldown_cmark::Tag`, variant by variant.
#[verifier::external_body]
fn tag_from(t: Tag<'_>) -> MdTag {
    match t {
        Tag::Paragraph => MdTag::Paragraph,
        Tag::Heading { level, .. } => MdTag::Heading(level as u8),
        Tag::BlockQuote(_) => MdTag::BlockQuote,
        Tag::CodeBlock(CodeBlockKind::Fenced(l)) => MdTag::CodeBlock(Some(l.to_string())),
        Tag::CodeBlock(CodeBlockKind::Indented) => MdTag::CodeBlock(None),
        Tag::List(n) => MdTag::List(n),
        Tag::Link { dest_url, title, .. } => MdTag::Link { dest_url: dest_url.to_string(), title: title.to_string() },
        Tag::Image { dest_url, title, .. } => MdTag::Image { dest_url: dest_url.to_string(), title: title.to_string() },
        other => tag_from_plain(other),
    }
}

/// Copies a `pulldown_cmark::Tag` that carries no text, variant by variant.
#[verifier::external_body]
fn tag_from_plain(t: Tag<'_>) -> MdTag {
    match t {
        Tag::Item => MdTag::Item,
        Tag::Table(_) => MdTag::Table,
        Tag::TableHead => MdTag::TableHead,
        Tag::TableRow => MdTag::TableRow,
        Tag::TableCell => MdTag::TableCell,
        Tag::Emphasis => MdTag::Emphasis,
        Tag::Strong => MdTag::Strong,
        _ => MdTag::Other,
    }
}

/// Copies one `TagEnd` of a block element, variant by variant.
#[verifier::external_body]
fn tag_end_from(t: TagEnd) -> MdTagEnd {
    match t {
        TagEnd::Paragraph => MdTagEnd::Paragraph,
        TagEnd::Heading(l) => MdTagEnd::Heading(l as u8),
        TagEnd::BlockQuote(_) => MdTagEnd::BlockQuote,
        TagEnd::CodeBlock => MdTagEnd::CodeBlock,
        TagEnd::List(o) => MdTagEnd::List(o),
        TagEnd::Item => MdTagEnd::Item,
        TagEnd::Table => MdTagEnd::Table,
        other => tag_end_from_inner(other),
    }
}

/// Copies one `TagEnd` of a table part or a span, variant by
/// variant.
#[verifier::external_body]
fn tag_end_from_inner(t: TagEnd) -> MdTagEnd {
    match t {
        TagEnd::TableHead => MdTagEnd::TableHead,
        TagEnd::TableRow => MdTagEnd::TableRow,
        TagEnd::TableCell => MdTagEnd::TableCell,
        TagEnd::Emphasis => MdTagEnd::Emphasis,
        TagEnd::Strong => MdTagEnd::Strong,
        TagEnd::Link => MdTagEnd::Link,
        TagEnd::Image => MdTagEnd::Image,
        _ => MdTagEnd::Other,
    }
}

} // verus!
