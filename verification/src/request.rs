//! What a transcription is asked for: the output format and the two limits.

use crate::error::{invalid_format_text, ErrorKind, TranscribeError};
use vstd::prelude::*;

verus! {

/// Which files a transcription writes.
#[derive(Debug, Clone, Copy, PartialEq, Eq, Structural)]
pub enum OutputFormat {
    /// A subtitle file only.
    Srt,
    /// A transcript file only.
    Txt,
    /// Both files.
    Both,
}

/// What one transcription is asked to produce, and within which limits its
/// chunks are to stay.
#[derive(Debug, Clone, Copy, PartialEq, Eq, Structural)]
pub struct OutputRequest {
    pub write_subtitle: bool,
    pub write_transcript: bool,
    /// The longest a chunk of several segments may last, in hundredths of a
    /// second; zero for no limit.
    pub max_segment_duration: u64,
    /// The most characters a chunk of several segments may hold; zero for no
    /// limit.
    pub max_chars_per_chunk: u32,
}

/// The format that a name stands for: `srt`, `txt` or `both`, written
/// exactly so. No other name is a format.
pub open spec fn format_named(name: Seq<char>) -> Option<OutputFormat> {
    if name == seq!['s', 'r', 't'] {
        Some(OutputFormat::Srt)
    } else if name == seq!['t', 'x', 't'] {
        Some(OutputFormat::Txt)
    } else if name == seq!['b', 'o', 't', 'h'] {
        Some(OutputFormat::Both)
    } else {
        None
    }
}

/// The request for a format and the two limits as the caller gives them:
/// the duration in whole seconds, the length in characters.
pub open spec fn request_for(
    format: OutputFormat,
    max_segment_length: u32,
    max_characters_per_segment: u32,
) -> OutputRequest {
    OutputRequest {
        write_subtitle: format != OutputFormat::Txt,
        write_transcript: format != OutputFormat::Srt,
        max_segment_duration: (max_segment_length * 100) as u64,
        max_chars_per_chunk: max_characters_per_segment,
    }
}

impl OutputFormat {
    /// Reads the name of a format. Any name but `srt`, `txt` and `both` is
    /// refused, with a failure that names it.
    pub fn parse(name: &str) -> (format: Result<OutputFormat, TranscribeError>)
        ensures
            format is Ok <==> format_named(name@) is Some,
            format is Ok ==> format_named(name@) == Some(format->Ok_0),
            format is Err ==> format->Err_0.kind == ErrorKind::InvalidFormat,
            format is Err ==> format->Err_0.detail@ == invalid_format_text(name@),
    {
        proof {
            reveal_strlit("srt");
            reveal_strlit("txt");
            reveal_strlit("both");
            assert("srt"@ =~= seq!['s', 'r', 't']);
            assert("txt"@ =~= seq!['t', 'x', 't']);
            assert("both"@ =~= seq!['b', 'o', 't', 'h']);
        }
        let given = String::from_str(name);
        if given == String::from_str("srt") {
            Ok(OutputFormat::Srt)
        } else if given == String::from_str("txt") {
            Ok(OutputFormat::Txt)
        } else if given == String::from_str("both") {
            Ok(OutputFormat::Both)
        } else {
            Err(TranscribeError::invalid_format(name))
        }
    }
}

impl OutputRequest {
    /// The request for a format and two limits: `max_segment_length` in
    /// whole seconds, `max_characters_per_segment` in characters, zero for
    /// no limit.
    pub fn new(
        format: OutputFormat,
        max_segment_length: u32,
        max_characters_per_segment: u32,
    ) -> (request: OutputRequest)
        ensures
            request == request_for(format, max_segment_length, max_characters_per_segment),
    {
        let (write_subtitle, write_transcript) = match format {
            OutputFormat::Srt => (true, false),
            OutputFormat::Txt => (false, true),
            OutputFormat::Both => (true, true),
        };
        OutputRequest {
            write_subtitle,
            write_transcript,
            max_segment_duration: max_segment_length as u64 * 100,
            max_chars_per_chunk: max_characters_per_segment,
        }
    }

    /// Reads a request as it arrives from outside: the format by its name,
    /// which must be one of the accepted ones.
    pub fn parse(
        output_format: &str,
        max_segment_length: u32,
        max_characters_per_segment: u32,
    ) -> (request: Result<OutputRequest, TranscribeError>)
        ensures
            request is Ok <==> format_named(output_format@) is Some,
            request is Ok ==> request->Ok_0 == request_for(
                format_named(output_format@)->0,
                max_segment_length,
                max_characters_per_segment,
            ),
            request is Err ==> request->Err_0.kind == ErrorKind::InvalidFormat,
            request is Err ==> request->Err_0.detail@ == invalid_format_text(output_format@),
    {
        match OutputFormat::parse(output_format) {
            Ok(format) => Ok(
                OutputRequest::new(format, max_segment_length, max_characters_per_segment),
            ),
            Err(error) => Err(error),
        }
    }
}

} // verus!
