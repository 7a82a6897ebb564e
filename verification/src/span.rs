//! Byte spans of the source text, and the ways an edit can fail.

use vstd::prelude::*;

verus! {

/// A half-open byte interval `[start, end)` of the source text.
#[derive(Clone, Copy, Debug, PartialEq, Eq, Structural)]
pub struct Span {
    pub start: usize,
    pub end: usize,
}

impl Span {
    /// The number of bytes the span covers; zero where `end` lies before `start`.
    pub open spec fn spec_len(self) -> nat {
        if self.start <= self.end {
            (self.end - self.start) as nat
        } else {
            0
        }
    }

    /// The span is a slice of a text of `text_len` bytes.
    pub open spec fn within(self, text_len: nat) -> bool {
        self.start <= self.end <= text_len
    }
}

/// Why an editor could not be built, or a replacement not be made.
#[derive(Clone, Copy, Debug, PartialEq, Eq, Structural)]
pub enum EditError {
    /// The mapper gave back something that is no generator.
    InvalidMapper,
    /// The decoded URL does not stand literally inside its image's span.
    UrlNotFound,
    /// A URL range starts before the one in front of it ends.
    OverlapDetected,
    /// A generator failed or did not yield a string.
    GeneratorFailure,
}

} // verus!
