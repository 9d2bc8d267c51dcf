//! Turns the fragments that a speech recogniser yields into subtitles and a
//! transcript: consecutive fragments are merged into chunks within a limit
//! on duration and a limit on length, and the chunks are written out as a
//! subtitle file, as a transcript file and as one transcript string.
//!
//! The functions here are verified against their contracts, which speak
//! of segments and chunks as `segment::Span` values and of texts as
//! sequences of characters. Taken on trust are only the contracts given to
//! `String::push` and `char::is_whitespace` in `text`, and to the calls of
//! the standard library's `Path` in `paths`.

pub mod digits;
pub mod error;
pub mod merge;
pub mod paths;
pub mod render;
pub mod request;
pub mod runs;
pub mod segment;
pub mod text;
pub mod timestamp;
