//! Markdown tokenization.
//!
//! `pulldown-cmark` turns Markdown text into a stream of events; this
//! module names that stream and maps each event, one for one, to an
//! [`MdEvent`] that the parser can read.
use vstd::prelude::*;

use pulldown_cmark::Event::{Code, End, HardBreak, Rule, SoftBreak, Start, Text};
use pulldown_cmark::TagEnd::{BlockQuote, Emphasis, Heading, Item, List, Paragraph, Strong};
use pulldown_cmark::{Parser, TagEnd};

verus! {

/// The kind of a Markdown element, as far as the IR tells kinds apart.
#[derive(Debug, Clone, Copy, PartialEq, Eq, Structural)]
pub enum MdTag {
    Paragraph,
    /// Heading with its level, 1 to 6.
    Heading(u8),
    BlockQuote,
    /// A list; `true` for an ordered list.
    List(bool),
    Item,
    Emphasis,
    Strong,
    /// Any other element (code block, link, table, ...).
    Other,
}

/// One event of a Markdown parse: the start or end of an element, or a
/// leaf.
#[derive(Debug)]
pub enum MdEvent {
    Start(MdTag),
    End(MdTag),
    Text(String),
    /// Inline code; its text is kept as plain text.
    Code(String),
    SoftBreak,
    HardBreak,
    /// A horizontal rule.
    Rule,
    /// Any other event (HTML, footnote reference, math, ...).
    Other,
}

/// The event stream that `pulldown-cmark` (default options) produces for
/// `source`, with each event mapped to an [`MdEvent`].
pub uninterp spec fn markdown_events(source: Seq<char>) -> Seq<MdEvent>;

/// Runs `pulldown_cmark::Parser::new` over `source` and converts each
/// event, one for one, into an [`MdEvent`]. The event stream is the
/// parser's: a function of `source` alone, named [`markdown_events`].
#[verifier::external_body]
pub(crate) fn markdown_event_stream(source: &str) -> (events: Vec<MdEvent>)
    ensures
        events@ == markdown_events(source@),
{
    let tag = |end: TagEnd| match end {
        Paragraph => MdTag::Paragraph, Heading(l) => MdTag::Heading(l as u8),
        BlockQuote(_) => MdTag::BlockQuote, List(o) => MdTag::List(o), Item => MdTag::Item,
        Emphasis => MdTag::Emphasis, Strong => MdTag::Strong, _ => MdTag::Other,
    };
    Parser::new(source).map(|event| match event {
        Start(t) => MdEvent::Start(tag(t.to_end())), End(t) => MdEvent::End(tag(t)),
        Text(s) => MdEvent::Text(s.to_string()), Code(s) => MdEvent::Code(s.to_string()),
        SoftBreak => MdEvent::SoftBreak, HardBreak => MdEvent::HardBreak, Rule => MdEvent::Rule,
        _ => MdEvent::Other,
    }).collect()
}

} // verus!
