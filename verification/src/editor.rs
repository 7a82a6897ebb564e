//! The editor: built once from a document and a mapper, then asked for the
//! rewritten text as often as wanted.
//!
//! Building locates the images, resolves the byte range of each URL and asks
//! the mapper, image by image, for a generator of the replacement. Replacing
//! forces the generators in order and splices their strings into the text.
//! The editor itself never changes after it is built.

use vstd::prelude::*;
use vstd::utf8::*;
use vstd::string::*;
use crate::events::markdown_events;
use crate::locator::{images_model, locate_images, located_images, ImageModel, ImageReference};
use crate::resolver::{resolve_url_range, url_range};
use crate::span::{EditError, Span};
use crate::splicer::{
    bytes_of_each, gap_start, in_gap, inserted_len, lemma_outside_bytes_kept,
    lemma_output_determined, lemma_spliced_len, output_position, ranges_wf, removed_len, splice,
    spliced,
};

verus! {

/// A document with the byte ranges of its image URLs and, for each range,
/// the generator of its replacement.
pub struct MarkdownImgUrlEditor<G> {
    markdown_text: String,
    string_generators: Vec<G>,
    url_ranges: Vec<Span>,
}

/// The literal range of an image's URL in the text, if it can be found.
pub open spec fn image_range(text: Seq<u8>, image: ImageModel) -> Option<Span> {
    url_range(text, encode_utf8(image.decoded_url), image.enclosing_span)
}

/// The mapper, called with the alt text and the URL of `image`, may answer `reply`.
pub open spec fn mapped<G, F: Fn(String, String) -> Option<G>>(
    converter: F,
    image: ImageModel,
    reply: Option<G>,
) -> bool {
    exists|alt: String, url: String|
        alt@ == image.alt_text && url@ == image.decoded_url && #[trigger] call_ensures(
            converter,
            (alt, url),
            reply,
        )
}

/// The mapper may answer the call for `image` with a generator.
pub open spec fn accepted<G, F: Fn(String, String) -> Option<G>>(
    converter: F,
    image: ImageModel,
) -> bool {
    exists|generator: G| mapped(converter, image, Some(generator))
}

/// The first `count` images resolve, each got a generator from the mapper,
/// and no range starts before the one in front of it ends.
pub open spec fn admitted<G, F: Fn(String, String) -> Option<G>>(
    converter: F,
    text: Seq<u8>,
    images: Seq<ImageModel>,
    count: int,
) -> bool {
    &&& forall|i: int| 0 <= i < count ==> (#[trigger] image_range(text, images[i])) is Some
    &&& forall|i: int| 0 <= i < count ==> #[trigger] accepted(converter, images[i])
    &&& forall|i: int, j: int|
        0 <= i < j < count ==> (#[trigger] image_range(text, images[i]))->Some_0.end <= (
        #[trigger] image_range(text, images[j]))->Some_0.start
}

/// Building stops at image `at` with `error`: all images before it were
/// admitted, and it is the first that was not.
pub open spec fn stopped_at<G, F: Fn(String, String) -> Option<G>>(
    converter: F,
    text: Seq<u8>,
    images: Seq<ImageModel>,
    at: int,
    error: EditError,
) -> bool {
    &&& 0 <= at < images.len()
    &&& admitted(converter, text, images, at)
    &&& match error {
        EditError::UrlNotFound => image_range(text, images[at]) is None,
        EditError::InvalidMapper => {
            &&& image_range(text, images[at]) is Some
            &&& mapped(converter, images[at], None)
        },
        EditError::OverlapDetected => {
            &&& image_range(text, images[at]) is Some
            &&& accepted(converter, images[at])
            &&& at > 0
            &&& image_range(text, images[at])->Some_0.start < image_range(
                text,
                images[at - 1],
            )->Some_0.end
        },
        EditError::GeneratorFailure => false,
    }
}

/// Forcing `generator` may yield `reply`.
pub open spec fn forced<G, F: Fn(&G) -> Option<String>>(
    force: F,
    generator: G,
    reply: Option<String>,
) -> bool {
    call_ensures(force, (&generator,), reply)
}

/// Forcing `generator` may yield a string.
pub open spec fn yields<G, F: Fn(&G) -> Option<String>>(force: F, generator: G) -> bool {
    exists|text: String| forced(force, generator, Some(text))
}

/// Two answers of a generator agree: both are the same text, or both are none.
pub open spec fn same_answer(first: Option<String>, second: Option<String>) -> bool {
    match (first, second) {
        (Some(one), Some(other)) => one@ == other@,
        (None, None) => true,
        _ => false,
    }
}

/// `force` yields one answer for each generator.
pub open spec fn deterministic<G, F: Fn(&G) -> Option<String>>(force: F) -> bool {
    forall|generator: G, first: Option<String>, second: Option<String>|
        forced(force, generator, first) && forced(force, generator, second) ==> same_answer(
            first,
            second,
        )
}

/// Images whose ranges are known, rise in order and each have a generator
/// from the mapper are admitted.
proof fn lemma_admitted<G, F: Fn(String, String) -> Option<G>>(
    converter: F,
    text: Seq<u8>,
    images: Seq<ImageModel>,
    ranges: Seq<Span>,
    generators: Seq<G>,
)
    requires
        ranges.len() <= images.len(),
        generators.len() == ranges.len(),
        ranges_wf(text, ranges),
        forall|j: int|
            0 <= j < ranges.len() ==> image_range(text, images[j]) == Some(#[trigger] ranges[j]),
        forall|j: int|
            0 <= j < ranges.len() ==> mapped(converter, images[j], Some(#[trigger] generators[j])),
    ensures
        admitted(converter, text, images, ranges.len() as int),
{
    assert forall|i: int| 0 <= i < ranges.len() implies (#[trigger] image_range(
        text,
        images[i],
    )) is Some by {
        assert(image_range(text, images[i]) == Some(ranges[i]));
    }
    assert forall|i: int| 0 <= i < ranges.len() implies #[trigger] accepted(
        converter,
        images[i],
    ) by {
        assert(mapped(converter, images[i], Some(generators[i])));
    }
    assert forall|i: int, j: int| 0 <= i < j < ranges.len() implies (#[trigger] image_range(
        text,
        images[i],
    ))->Some_0.end <= (#[trigger] image_range(text, images[j]))->Some_0.start by {
        assert(image_range(text, images[i]) == Some(ranges[i]));
        assert(image_range(text, images[j]) == Some(ranges[j]));
    }
}

impl<G> MarkdownImgUrlEditor<G> {
    /// The text under edit.
    pub closed spec fn source(&self) -> Seq<char> {
        self.markdown_text@
    }

    /// The bytes of the text under edit.
    pub open spec fn source_bytes(&self) -> Seq<u8> {
        encode_utf8(self.source())
    }

    /// The URL ranges, in document order.
    pub closed spec fn ranges(&self) -> Seq<Span> {
        self.url_ranges@
    }

    /// The generators, one for each range.
    pub closed spec fn generators(&self) -> Seq<G> {
        self.string_generators@
    }

    /// The ranges lie in the text in rising order without overlap, and each
    /// has its generator.
    pub open spec fn wf(&self) -> bool {
        &&& ranges_wf(self.source_bytes(), self.ranges())
        &&& self.generators().len() == self.ranges().len()
    }

    /// Every editor is well formed, from its building on.
    #[verifier::type_invariant]
    closed spec fn always_wf(&self) -> bool {
        self.wf()
    }

    /// Forcing the generators in order yields the strings `produced`, and
    /// `out` is the text spliced with them.
    pub open spec fn produces<F: Fn(&G) -> Option<String>>(
        &self,
        force: F,
        produced: Seq<String>,
        out: Seq<char>,
    ) -> bool {
        &&& produced.len() == self.generators().len()
        &&& forall|i: int|
            0 <= i < produced.len() ==> forced(
                force,
                self.generators()[i],
                Some(#[trigger] produced[i]),
            )
        &&& encode_utf8(out) == spliced(self.source_bytes(), self.ranges(), bytes_of_each(produced))
    }

    /// Generator `at` is the first that yields no string.
    pub open spec fn fails_at<F: Fn(&G) -> Option<String>>(&self, force: F, at: int) -> bool {
        &&& 0 <= at < self.generators().len()
        &&& forced(force, self.generators()[at], None)
        &&& forall|i: int| 0 <= i < at ==> #[trigger] yields(force, self.generators()[i])
    }

    /// What `replace` may give with `force`: the text spliced with the
    /// strings of all generators, or `GeneratorFailure` where a generator
    /// yields no string.
    pub open spec fn replace_outcome<F: Fn(&G) -> Option<String>>(
        &self,
        force: F,
        result: Result<String, EditError>,
    ) -> bool {
        &&& result is Ok ==> exists|produced: Seq<String>|
            self.produces(force, produced, result->Ok_0@)
        &&& result is Err ==> result->Err_0 == EditError::GeneratorFailure
        &&& result is Err ==> exists|at: int| self.fails_at(force, at)
    }

    /// What `replace_after` may give: where the hook may report success,
    /// what `replace` may give; where it may report failure, `InvalidMapper`.
    pub open spec fn replace_after_outcome<H: FnOnce() -> bool, F: Fn(&G) -> Option<String>>(
        &self,
        pre_collect: H,
        force: F,
        result: Result<String, EditError>,
    ) -> bool {
        ||| call_ensures(pre_collect, (), true) && self.replace_outcome(force, result)
        ||| call_ensures(pre_collect, (), false) && result is Err && result->Err_0
            == EditError::InvalidMapper
    }

    /// What building over `images` may give: an editor that holds, for each
    /// image in order, the range of its URL and the mapper's generator; or
    /// the error of the first image that was not admitted.
    pub open spec fn build_outcome<F: Fn(String, String) -> Option<G>>(
        converter: F,
        text: Seq<char>,
        images: Seq<ImageModel>,
        result: Result<Self, EditError>,
    ) -> bool {
        match result {
            Ok(editor) => {
                &&& editor.wf()
                &&& editor.source() == text
                &&& editor.ranges().len() == images.len()
                &&& admitted(converter, encode_utf8(text), images, images.len() as int)
                &&& forall|i: int|
                    0 <= i < images.len() ==> image_range(encode_utf8(text), images[i]) == Some(
                        #[trigger] editor.ranges()[i],
                    )
                &&& forall|i: int|
                    0 <= i < images.len() ==> mapped(
                        converter,
                        images[i],
                        Some(#[trigger] editor.generators()[i]),
                    )
            },
            Err(error) => exists|at: int|
                stopped_at(converter, encode_utf8(text), images, at, error),
        }
    }

    /// Builds the editor for `text`: locates the images with the tokenizer
    /// and goes on as `with_images` does.
    pub fn new<F: Fn(String, String) -> Option<G>>(text: String, converter: F) -> (result: Result<
        Self,
        EditError,
    >)
        requires
            forall|alt: String, url: String| call_requires(converter, (alt, url)),
        ensures
            Self::build_outcome(converter, text@, located_images(markdown_events(text@)), result),
    {
        let images = locate_images(text.as_str());
        Self::with_images(text, &images, converter)
    }

    /// Builds the editor for `text` and its `images`, which are taken in
    /// order: the range of the image's URL is resolved, then `converter` is
    /// called once with the alt text and the decoded URL, then the range is
    /// held against the one before it. The first image that fails ends the
    /// building: with `UrlNotFound` where its URL does not stand literally
    /// in its span, with `InvalidMapper` where the mapper gave no generator,
    /// with `OverlapDetected` where its range starts before the last one ends.
    pub fn with_images<F: Fn(String, String) -> Option<G>>(
        text: String,
        images: &Vec<ImageReference>,
        converter: F,
    ) -> (result: Result<Self, EditError>)
        requires
            forall|alt: String, url: String| call_requires(converter, (alt, url)),
        ensures
            Self::build_outcome(converter, text@, images_model(images@), result),
    {
        broadcast use encode_utf8_valid_utf8;

        let ghost source = encode_utf8(text@);
        let ghost model = images_model(images@);
        let mut string_generators: Vec<G> = Vec::new();
        let mut url_ranges: Vec<Span> = Vec::new();
        let mut prev_url_end: usize = 0;
        let mut i: usize = 0;
        while i < images.len()
            invariant
                i <= images.len(),
                model == images_model(images@),
                model.len() == images.len(),
                source == encode_utf8(text@),
                forall|alt: String, url: String| call_requires(converter, (alt, url)),
                url_ranges.len() == i,
                string_generators.len() == i,
                ranges_wf(source, url_ranges@),
                prev_url_end == gap_start(url_ranges@, i as int),
                forall|j: int|
                    0 <= j < i ==> image_range(source, model[j]) == Some(#[trigger] url_ranges@[j]),
                forall|j: int|
                    0 <= j < i ==> mapped(converter, model[j], Some(#[trigger] string_generators@[j])),
            decreases images.len() - i,
        {
            let image = &images[i];
            assert(model[i as int] == images@[i as int]@);
            let url_range = match resolve_url_range(
                text.as_str(),
                image.decoded_url.as_str(),
                image.enclosing_span,
            ) {
                Ok(range) => range,
                Err(error) => {
                    proof {
                        lemma_admitted(converter, source, model, url_ranges@, string_generators@);
                        assert(stopped_at(converter, source, model, i as int, error));
                    }
                    return Err(error);
                },
            };
            let alt = image.alt_text.clone();
            let url = image.decoded_url.clone();
            let reply = converter(alt, url);
            assert(mapped(converter, model[i as int], reply));
            let generator = match reply {
                Some(generator) => generator,
                None => {
                    proof {
                        lemma_admitted(converter, source, model, url_ranges@, string_generators@);
                        assert(stopped_at(
                            converter,
                            source,
                            model,
                            i as int,
                            EditError::InvalidMapper,
                        ));
                    }
                    return Err(EditError::InvalidMapper);
                },
            };
            if url_range.start < prev_url_end {
                proof {
                    lemma_admitted(converter, source, model, url_ranges@, string_generators@);
                    assert(accepted(converter, model[i as int]));
                    assert(image_range(source, model[i - 1]) == Some(url_ranges@[i - 1]));
                    assert(stopped_at(
                        converter,
                        source,
                        model,
                        i as int,
                        EditError::OverlapDetected,
                    ));
                }
                return Err(EditError::OverlapDetected);
            }
            string_generators.push(generator);
            url_ranges.push(url_range);
            prev_url_end = url_range.end;
            i += 1;
        }
        proof {
            lemma_admitted(converter, source, model, url_ranges@, string_generators@);
        }
        Ok(MarkdownImgUrlEditor { markdown_text: text, string_generators, url_ranges })
    }

    /// The text under edit.
    pub fn markdown_text(&self) -> (text: &str)
        ensures
            text@ == self.source(),
    {
        self.markdown_text.as_str()
    }

    /// The byte ranges of the image URLs, in document order.
    pub fn url_ranges(&self) -> (ranges: &Vec<Span>)
        ensures
            ranges@ == self.ranges(),
            ranges_wf(self.source_bytes(), ranges@),
    {
        proof {
            use_type_invariant(self);
        }
        &self.url_ranges
    }

    /// The generators that the mapper gave, one for each range.
    pub fn string_generators(&self) -> (generators: &Vec<G>)
        ensures
            generators@ == self.generators(),
            generators@.len() == self.ranges().len(),
    {
        proof {
            use_type_invariant(self);
        }
        &self.string_generators
    }

    /// Forces the generators in order and gives the text with each URL range
    /// replaced by its generator's string. Nothing is given where a
    /// generator yields no string. Without images the text comes back as it is.
    pub fn replace<F: Fn(&G) -> Option<String>>(&self, force: F) -> (result: Result<
        String,
        EditError,
    >)
        requires
            forall|generator: &G| call_requires(force, (generator,)),
        ensures
            self.replace_outcome(force, result),
            self.ranges().len() == 0 ==> result is Ok && result->Ok_0@ == self.source(),
    {
        proof {
            use_type_invariant(self);
        }
        if self.string_generators.len() == 0 {
            let out = self.markdown_text.clone();
            proof {
                let produced = Seq::<String>::empty();
                assert(spliced(self.source_bytes(), self.ranges(), bytes_of_each(produced))
                    =~= self.source_bytes());
                assert(self.produces(force, produced, out@));
            }
            assert(exists|strings: Seq<String>| self.produces(force, strings, out@));
            let result: Result<String, EditError> = Ok(out);
            assert(result->Ok_0@ == out@);
            assert(exists|strings: Seq<String>| self.produces(force, strings, result->Ok_0@));
            return result;
        }
        let mut produced: Vec<String> = Vec::new();
        let mut i: usize = 0;
        while i < self.string_generators.len()
            invariant
                i <= self.string_generators.len(),
                produced.len() == i,
                self.wf(),
                self.string_generators.len() > 0,
                forall|generator: &G| call_requires(force, (generator,)),
                forall|j: int|
                    0 <= j < i ==> forced(
                        force,
                        self.string_generators@[j],
                        Some(#[trigger] produced@[j]),
                    ),
            decreases self.string_generators.len() - i,
        {
            match force(&self.string_generators[i]) {
                Some(text) => {
                    produced.push(text);
                },
                None => {
                    assert(forced(force, self.generators()[i as int], None));
                    assert forall|j: int| 0 <= j < i implies #[trigger] yields(
                        force,
                        self.generators()[j],
                    ) by {
                        assert(forced(force, self.generators()[j], Some(produced@[j])));
                    }
                    assert(self.fails_at(force, i as int));
                    return Err(EditError::GeneratorFailure);
                },
            }
            i += 1;
        }
        let out = splice(self.markdown_text.as_str(), &self.url_ranges, &produced);
        assert(self.produces(force, produced@, out@));
        assert(exists|strings: Seq<String>| self.produces(force, strings, out@));
        let result: Result<String, EditError> = Ok(out);
        assert(result->Ok_0@ == out@);
        assert(exists|strings: Seq<String>| self.produces(force, strings, result->Ok_0@));
        result
    }

    /// Runs the hook `pre_collect` once, then replaces as `replace` does.
    /// Where the hook reports failure no generator is forced, and the call
    /// fails with `InvalidMapper`.
    pub fn replace_after<H: FnOnce() -> bool, F: Fn(&G) -> Option<String>>(
        &self,
        pre_collect: H,
        force: F,
    ) -> (result: Result<String, EditError>)
        requires
            call_requires(pre_collect, ()),
            forall|generator: &G| call_requires(force, (generator,)),
        ensures
            self.replace_after_outcome(pre_collect, force, result),
    {
        if pre_collect() {
            self.replace(force)
        } else {
            Err(EditError::InvalidMapper)
        }
    }
}

/// A replaced text is as long as the source, less the bytes of the URL
/// ranges, plus the bytes of the strings that the generators gave.
pub proof fn lemma_replaced_len<G, F: Fn(&G) -> Option<String>>(
    editor: MarkdownImgUrlEditor<G>,
    force: F,
    produced: Seq<String>,
    out: Seq<char>,
)
    requires
        editor.wf(),
        editor.produces(force, produced, out),
    ensures
        encode_utf8(out).len() == editor.source_bytes().len() - removed_len(
            editor.ranges(),
            editor.ranges().len(),
        ) + inserted_len(bytes_of_each(produced), editor.ranges().len()),
{
    lemma_spliced_len(editor.source_bytes(), editor.ranges(), bytes_of_each(produced));
}

/// Each byte of the source outside the URL ranges stands unchanged in a
/// replaced text, moved only by the replacements in front of it.
pub proof fn lemma_replaced_keeps_outside_bytes<G, F: Fn(&G) -> Option<String>>(
    editor: MarkdownImgUrlEditor<G>,
    force: F,
    produced: Seq<String>,
    out: Seq<char>,
    index: int,
    position: int,
)
    requires
        editor.wf(),
        editor.produces(force, produced, out),
        in_gap(editor.source_bytes(), editor.ranges(), index, position),
    ensures
        ({
            let moved = output_position(
                editor.ranges(),
                bytes_of_each(produced),
                index,
                position,
            );
            &&& 0 <= moved < encode_utf8(out).len()
            &&& encode_utf8(out)[moved] == editor.source_bytes()[position]
        }),
{
    lemma_outside_bytes_kept(
        editor.source_bytes(),
        editor.ranges(),
        bytes_of_each(produced),
        index,
        position,
    );
}

/// Replacing twice with generators that each yield one answer gives the
/// same outcome both times: the same text, or the same failure.
pub proof fn lemma_replace_repeatable<G, F: Fn(&G) -> Option<String>>(
    editor: MarkdownImgUrlEditor<G>,
    force: F,
    first: Result<String, EditError>,
    second: Result<String, EditError>,
)
    requires
        deterministic(force),
        editor.replace_outcome(force, first),
        editor.replace_outcome(force, second),
    ensures
        first is Ok <==> second is Ok,
        first is Ok ==> first->Ok_0@ == second->Ok_0@,
        first is Err ==> first->Err_0 == second->Err_0,
{
    if first is Ok && second is Ok {
        let one = choose|produced: Seq<String>| editor.produces(force, produced, first->Ok_0@);
        let other = choose|produced: Seq<String>| editor.produces(force, produced, second->Ok_0@);
        assert forall|i: int| 0 <= i < one.len() implies one[i]@ == other[i]@ by {
            assert(forced(force, editor.generators()[i], Some(one[i])));
            assert(forced(force, editor.generators()[i], Some(other[i])));
            assert(same_answer(Some(one[i]), Some(other[i])));
        }
        assert(bytes_of_each(one) =~= bytes_of_each(other));
        lemma_output_determined(
            editor.source_bytes(),
            editor.ranges(),
            bytes_of_each(one),
            first->Ok_0@,
            second->Ok_0@,
        );
    } else if first is Ok {
        lemma_text_excludes_failure(editor, force, first->Ok_0@);
    } else if second is Ok {
        lemma_text_excludes_failure(editor, force, second->Ok_0@);
    }
}

/// With generators that each yield one answer, a replacement that may give
/// a text has no generator that fails.
proof fn lemma_text_excludes_failure<G, F: Fn(&G) -> Option<String>>(
    editor: MarkdownImgUrlEditor<G>,
    force: F,
    out: Seq<char>,
)
    requires
        deterministic(force),
        exists|produced: Seq<String>| editor.produces(force, produced, out),
    ensures
        forall|at: int| !editor.fails_at(force, at),
{
    let produced = choose|produced: Seq<String>| editor.produces(force, produced, out);
    assert forall|at: int| !editor.fails_at(force, at) by {
        if editor.fails_at(force, at) {
            assert(forced(force, editor.generators()[at], Some(produced[at])));
            assert(forced(force, editor.generators()[at], None));
            assert(same_answer(Some(produced[at]), None));
        }
    }
}

} // verus!
