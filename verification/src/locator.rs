//! Finds the images of a document in its event stream.
//!
//! Between the start and the end of an image the text runs are gathered into
//! the alt text, joined by single spaces. The end event gives the decoded
//! URL and the span of the whole image.

use vstd::prelude::*;
use vstd::string::*;
use crate::events::{
    events_model, markdown_events, tokenize, EventModel, MarkdownEvent, SpannedEvent,
    SpannedEventModel,
};
use crate::span::Span;

verus! {

/// One image of the document: its alt text, its URL as the tokenizer decoded
/// it, and the span of the whole construct.
#[derive(Clone, Debug)]
pub struct ImageReference {
    pub alt_text: String,
    pub decoded_url: String,
    pub enclosing_span: Span,
}

/// The mathematical value of an [`ImageReference`].
pub struct ImageModel {
    pub alt_text: Seq<char>,
    pub decoded_url: Seq<char>,
    pub enclosing_span: Span,
}

impl View for ImageReference {
    type V = ImageModel;

    open spec fn view(&self) -> ImageModel {
        ImageModel {
            alt_text: self.alt_text@,
            decoded_url: self.decoded_url@,
            enclosing_span: self.enclosing_span,
        }
    }
}

/// The values of a sequence of image references, in order.
pub open spec fn images_model(images: Seq<ImageReference>) -> Seq<ImageModel> {
    images.map_values(|image: ImageReference| image@)
}

/// What the locator remembers between two events: whether an image is open,
/// and the alt text gathered for it so far, if any text has come.
pub struct ScanState {
    pub in_image: bool,
    pub alt: Option<Seq<char>>,
}

/// The state before the first event.
pub open spec fn scan_start() -> ScanState {
    ScanState { in_image: false, alt: None }
}

/// The state after `event`, coming from `state`.
pub open spec fn scan_step(state: ScanState, event: EventModel) -> ScanState {
    match event {
        EventModel::ImageStart => ScanState { in_image: true, alt: state.alt },
        EventModel::Text(run) => if state.in_image {
            ScanState {
                in_image: true,
                alt: Some(
                    match state.alt {
                        Some(alt) => alt + seq![' '] + run,
                        None => run,
                    },
                ),
            }
        } else {
            state
        },
        EventModel::ImageEnd(_) => scan_start(),
        EventModel::Other => state,
    }
}

/// The state after the first `count` events.
pub open spec fn scan_state(events: Seq<SpannedEventModel>, count: nat) -> ScanState
    recommends
        count <= events.len(),
    decreases count,
{
    if count == 0 {
        scan_start()
    } else {
        scan_step(scan_state(events, (count - 1) as nat), events[count - 1].event)
    }
}

/// The alt text that an image ending in `state` gets: what was gathered, or
/// the empty text where no run came.
pub open spec fn gathered_alt(state: ScanState) -> Seq<char> {
    match state.alt {
        Some(alt) => alt,
        None => Seq::empty(),
    }
}

/// The images that end among the first `count` events, in document order.
pub open spec fn located_prefix(events: Seq<SpannedEventModel>, count: nat) -> Seq<ImageModel>
    recommends
        count <= events.len(),
    decreases count,
{
    if count == 0 {
        Seq::empty()
    } else {
        let before = located_prefix(events, (count - 1) as nat);
        match events[count - 1].event {
            EventModel::ImageEnd(url) => before.push(
                ImageModel {
                    alt_text: gathered_alt(scan_state(events, (count - 1) as nat)),
                    decoded_url: url,
                    enclosing_span: events[count - 1].span,
                },
            ),
            _ => before,
        }
    }
}

/// All images of an event stream, in document order.
pub open spec fn located_images(events: Seq<SpannedEventModel>) -> Seq<ImageModel> {
    located_prefix(events, events.len())
}

/// Whether the gathered alt text in exec form stands for the one of the model.
pub open spec fn alt_matches(alt: Option<String>, model: Option<Seq<char>>) -> bool {
    match (alt, model) {
        (Some(text), Some(chars)) => text@ == chars,
        (None, None) => true,
        _ => false,
    }
}

/// Walks the events once and gives one image reference for each image end.
pub fn collect_images(events: &Vec<SpannedEvent>) -> (images: Vec<ImageReference>)
    ensures
        images_model(images@) == located_images(events_model(events@)),
{
    let ghost model = events_model(events@);
    let mut images: Vec<ImageReference> = Vec::new();
    let mut in_image = false;
    let mut alt: Option<String> = None;
    let mut i: usize = 0;
    assert(images_model(images@) =~= located_prefix(model, 0));
    while i < events.len()
        invariant
            i <= events.len(),
            model == events_model(events@),
            model.len() == events.len(),
            in_image == scan_state(model, i as nat).in_image,
            alt_matches(alt, scan_state(model, i as nat).alt),
            images_model(images@) == located_prefix(model, i as nat),
        decreases events.len() - i,
    {
        let ghost before = scan_state(model, i as nat);
        let ghost found = images@;
        assert(model[i as int] == events@[i as int]@);
        match &events[i].event {
            MarkdownEvent::ImageStart => {
                in_image = true;
            },
            MarkdownEvent::Text(run) => {
                if in_image {
                    let joined = match alt {
                        Some(mut text) => {
                            proof {
                                reveal_strlit(" ");
                            }
                            text.append(" ");
                            text.append(run.as_str());
                            assert(text@ =~= before.alt->Some_0 + seq![' '] + run@);
                            text
                        },
                        None => run.clone(),
                    };
                    alt = Some(joined);
                }
            },
            MarkdownEvent::ImageEnd(url) => {
                let alt_text = match alt {
                    Some(text) => text,
                    None => String::new(),
                };
                images.push(
                    ImageReference {
                        alt_text,
                        decoded_url: url.clone(),
                        enclosing_span: events[i].span,
                    },
                );
                in_image = false;
                alt = None;
                assert(images_model(images@) =~= images_model(found).push(images@.last()@));
            },
            MarkdownEvent::Other => {},
        }
        i += 1;
    }
    images
}

/// Tokenizes `text` and locates its images.
pub fn locate_images(text: &str) -> (images: Vec<ImageReference>)
    ensures
        images_model(images@) == located_images(markdown_events(text@)),
{
    let events = tokenize(text);
    collect_images(&events)
}

} // verus!
