//! The structural events of a markdown document, as far as images need them.
//!
//! The tokenizer is pulldown-cmark. Its events are turned, one for one, into
//! a small enum of this library that keeps what the image locator reads: the
//! start of an image, a run of text, the end of an image with the decoded
//! URL, and the byte span of each.

use vstd::prelude::*;
use pulldown_cmark::{Event, Options, Parser, Tag};
use crate::span::Span;

verus! {

/// One structural event of a markdown document.
#[derive(Clone, Debug)]
pub enum MarkdownEvent {
    /// An image begins.
    ImageStart,
    /// A run of text.
    Text(String),
    /// An image ends; the URL is the tokenizer's decoded destination.
    ImageEnd(String),
    /// Anything else.
    Other,
}

/// An event with the byte span of the source that it covers.
#[derive(Clone, Debug)]
pub struct SpannedEvent {
    pub event: MarkdownEvent,
    pub span: Span,
}

/// The mathematical value of a [`MarkdownEvent`].
pub enum EventModel {
    ImageStart,
    Text(Seq<char>),
    ImageEnd(Seq<char>),
    Other,
}

/// The mathematical value of a [`SpannedEvent`].
pub struct SpannedEventModel {
    pub event: EventModel,
    pub span: Span,
}

impl View for MarkdownEvent {
    type V = EventModel;

    open spec fn view(&self) -> EventModel {
        match self {
            MarkdownEvent::ImageStart => EventModel::ImageStart,
            MarkdownEvent::Text(run) => EventModel::Text(run@),
            MarkdownEvent::ImageEnd(url) => EventModel::ImageEnd(url@),
            MarkdownEvent::Other => EventModel::Other,
        }
    }
}

impl View for SpannedEvent {
    type V = SpannedEventModel;

    open spec fn view(&self) -> SpannedEventModel {
        SpannedEventModel { event: self.event@, span: self.span }
    }
}

/// The values of a sequence of events, in order.
pub open spec fn events_model(events: Seq<SpannedEvent>) -> Seq<SpannedEventModel> {
    events.map_values(|event: SpannedEvent| event@)
}

/// The events that pulldown-cmark reports for `text`, with tables, footnotes,
/// strikethrough and task lists switched on.
pub uninterp spec fn markdown_events(text: Seq<char>) -> Seq<SpannedEventModel>;

/// Runs pulldown-cmark's `Parser::new_ext(..).into_offset_iter()` over `text`
/// and hands each event on in this library's own form.
///
/// Not proved: that the events are those named by [`markdown_events`], which
/// says no more than that the tokenizer's answer depends on the text alone.
/// Nothing is claimed of the spans or of the event order.
#[verifier::external_body]
pub(crate) fn tokenize(text: &str) -> (events: Vec<SpannedEvent>)
    ensures
        events_model(events@) == markdown_events(text@),
{
    let options = Options::ENABLE_TABLES | Options::ENABLE_FOOTNOTES
        | Options::ENABLE_STRIKETHROUGH | Options::ENABLE_TASKLISTS;
    let mut events = Vec::new();
    for (event, range) in Parser::new_ext(text, options).into_offset_iter() {
        let event = match event {
            Event::Start(Tag::Image(..)) => MarkdownEvent::ImageStart,
            Event::Text(run) => MarkdownEvent::Text(run.into_string()),
            Event::End(Tag::Image(_, url, _)) => MarkdownEvent::ImageEnd(url.into_string()),
            _ => MarkdownEvent::Other,
        };
        events.push(SpannedEvent { event, span: Span { start: range.start, end: range.end } });
    }
    events
}

} // verus!
