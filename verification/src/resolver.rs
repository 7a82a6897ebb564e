//! Recovers the literal byte range of an image's URL inside the source text.
//!
//! The tokenizer hands out the URL decoded, so its own span cannot be
//! trusted to hold the URL's bytes. The range is found by looking, inside
//! the image's span, for the last place where the decoded URL stands
//! literally: the URL follows the alt text, so an equal stretch of the alt
//! text must lose against it.

use vstd::prelude::*;
use vstd::utf8::*;
use vstd::string::*;
use crate::span::{EditError, Span};

verus! {

/// `needle` stands in `text` at byte offset `at` as a substring: between two
/// character boundaries, byte for byte.
pub open spec fn occurs_at(text: Seq<u8>, needle: Seq<u8>, at: int) -> bool {
    &&& 0 <= at
    &&& at + needle.len() <= text.len()
    &&& is_char_boundary(text, at)
    &&& is_char_boundary(text, at + needle.len())
    &&& text.subrange(at, at + needle.len()) == needle
}

/// `needle` stands at `at`, wholly inside `span`, and `span` is a slice of `text`.
pub open spec fn occurs_within(text: Seq<u8>, needle: Seq<u8>, span: Span, at: int) -> bool {
    &&& span.within(text.len())
    &&& span.start <= at
    &&& at + needle.len() <= span.end
    &&& occurs_at(text, needle, at)
}

/// `at` is the last place inside `span` where `needle` stands.
pub open spec fn is_last_occurrence(text: Seq<u8>, needle: Seq<u8>, span: Span, at: int) -> bool {
    &&& occurs_within(text, needle, span, at)
    &&& forall|later: int| at < later ==> !occurs_within(text, needle, span, later)
}

/// The byte range of the last occurrence of `url` inside `span`, if there is one.
pub open spec fn url_range(text: Seq<u8>, url: Seq<u8>, span: Span) -> Option<Span> {
    if exists|at: int| is_last_occurrence(text, url, span, at) {
        let at = choose|at: int| is_last_occurrence(text, url, span, at);
        Some(Span { start: at as usize, end: (at + url.len()) as usize })
    } else {
        None
    }
}

/// There is at most one last occurrence.
pub proof fn lemma_last_occurrence_unique(
    text: Seq<u8>,
    needle: Seq<u8>,
    span: Span,
    first: int,
    second: int,
)
    requires
        is_last_occurrence(text, needle, span, first),
        is_last_occurrence(text, needle, span, second),
    ensures
        first == second,
{
}

/// A boundary of the rest of a text, counted from a boundary of the text,
/// is a boundary of the text.
proof fn lemma_boundary_from_suffix(text: Seq<u8>, at: int, offset: int)
    requires
        valid_utf8(text),
        0 <= at <= text.len(),
        0 <= offset <= text.len() - at,
        is_char_boundary(text, at),
        is_char_boundary(text.subrange(at, text.len() as int), offset),
    ensures
        is_char_boundary(text, at + offset),
{
    let suffix = text.subrange(at, text.len() as int);
    valid_utf8_split(text, at);
    if at + offset == text.len() {
        is_char_boundary_start_end_of_seq(text);
    } else {
        is_char_boundary_iff_not_is_continuation_byte(suffix, offset);
        is_char_boundary_iff_not_is_continuation_byte(text, at + offset);
        assert(suffix[offset] == text[at + offset]);
    }
}

/// Bytes of a well-formed needle that begin on a boundary of the text end on one.
proof fn lemma_match_ends_on_boundary(text: Seq<u8>, needle: Seq<u8>, at: int)
    requires
        valid_utf8(text),
        valid_utf8(needle),
        0 <= at,
        at + needle.len() <= text.len(),
        is_char_boundary(text, at),
        text.subrange(at, at + needle.len()) == needle,
    ensures
        is_char_boundary(text, at + needle.len()),
    decreases needle.len(),
{
    if needle.len() > 0 {
        let suffix = text.subrange(at, text.len() as int);
        valid_utf8_split(text, at);
        let width = length_of_first_scalar(needle);
        assert(text.subrange(at, at + needle.len())[0] == text[at]);
        assert(suffix[0] == needle[0]);
        assert(length_of_first_scalar(suffix) == width);
        assert(1 <= width <= needle.len());
        assert(is_char_boundary(suffix, width)) by {
            reveal_with_fuel(is_char_boundary, 2);
        }
        lemma_boundary_from_suffix(text, at, width);
        let rest = pop_first_scalar(needle);
        assert(text.subrange(at + width, at + needle.len()) =~= rest);
        lemma_match_ends_on_boundary(text, rest, at + width);
    }
}

/// Wherever the bytes of a non-empty, well-formed needle stand in a
/// well-formed text, they stand between two character boundaries: for such
/// a needle an occurrence is no more than an equal stretch of bytes.
pub proof fn lemma_match_on_boundaries(text: Seq<u8>, needle: Seq<u8>, at: int)
    requires
        valid_utf8(text),
        valid_utf8(needle),
        needle.len() > 0,
        0 <= at,
        at + needle.len() <= text.len(),
        text.subrange(at, at + needle.len()) == needle,
    ensures
        occurs_at(text, needle, at),
{
    assert(text.subrange(at, at + needle.len())[0] == text[at]);
    is_char_boundary_iff_not_is_continuation_byte(needle, 0);
    is_char_boundary_iff_not_is_continuation_byte(text, at);
    lemma_match_ends_on_boundary(text, needle, at);
}

/// Whether the bytes of `hay` from `at` on begin with `needle`.
fn matches_at(hay: &[u8], needle: &[u8], at: usize) -> (same: bool)
    requires
        at + needle@.len() <= hay@.len(),
    ensures
        same == (hay@.subrange(at as int, at + needle@.len()) == needle@),
{
    let n: usize = needle.len();
    let total: usize = hay.len();
    let mut j: usize = 0;
    while j < n
        invariant
            n == needle@.len(),
            total == hay@.len(),
            at + n <= hay@.len(),
            j <= n,
            forall|k: int| 0 <= k < j ==> hay@[at + k] == needle@[k],
        decreases n - j,
    {
        if hay[at + j] != needle[j] {
            assert(hay@.subrange(at as int, at + n)[j as int] == hay@[at + j]);
            return false;
        }
        j += 1;
    }
    assert(hay@.subrange(at as int, at + n) =~= needle@);
    true
}

/// Finds the literal range of `url` in `text`: the last occurrence that lies
/// inside `span`. Fails with `UrlNotFound` where `span` is no slice of the
/// text or holds no occurrence.
pub fn resolve_url_range(text: &str, url: &str, span: Span) -> (result: Result<Span, EditError>)
    ensures
        result == match url_range(text.spec_bytes(), url.spec_bytes(), span) {
            Some(range) => Ok::<Span, EditError>(range),
            None => Err(EditError::UrlNotFound),
        },
        result is Ok ==> is_last_occurrence(
            text.spec_bytes(),
            url.spec_bytes(),
            span,
            result->Ok_0.start as int,
        ) && result->Ok_0.end == result->Ok_0.start + url.spec_bytes().len(),
        result is Err ==> forall|at: int| !occurs_within(text.spec_bytes(), url.spec_bytes(), span, at),
{
    let hay = text.as_bytes();
    let needle = url.as_bytes();
    let n: usize = needle.len();
    if span.start > span.end || span.end > hay.len() || span.end - span.start < n {
        return Err(EditError::UrlNotFound);
    }
    let mut at: usize = span.end - n;
    loop
        invariant
            hay@ == text.spec_bytes(),
            needle@ == url.spec_bytes(),
            n == needle@.len(),
            span.within(hay@.len()),
            span.start <= at,
            at + n <= span.end,
            forall|later: int| at < later ==> !occurs_within(hay@, needle@, span, later),
        decreases at,
    {
        if text.is_char_boundary(at) && text.is_char_boundary(at + n) && matches_at(
            hay,
            needle,
            at,
        ) {
            proof {
                let found = at as int;
                assert(is_last_occurrence(hay@, needle@, span, found));
                let chosen = choose|c: int| is_last_occurrence(hay@, needle@, span, c);
                lemma_last_occurrence_unique(hay@, needle@, span, found, chosen);
            }
            return Ok(Span { start: at, end: at + n });
        }
        if at == span.start {
            return Err(EditError::UrlNotFound);
        }
        at -= 1;
    }
}

} // verus!
