//! Rewrites the image URLs of a markdown document in place.
//!
//! Every image reference is located, the literal byte range of its URL is
//! recovered from the source text, and the output is put together from the
//! untouched stretches of the source and the replacement strings. Nothing
//! but the URLs changes: no byte of the surrounding text is reflowed.

pub mod span;
pub mod events;
pub mod locator;
pub mod resolver;
pub mod splicer;
pub mod editor;
