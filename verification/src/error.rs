//! The failures of a transcription, by kind, each with a text for the user.

use vstd::prelude::*;

verus! {

/// What went wrong, for callers that decide by the kind of failure.
#[derive(Debug, Clone, PartialEq, Eq)]
pub enum ErrorKind {
    /// The requested output format is none of the accepted ones.
    InvalidFormat,
    /// An output file could not be made or written.
    IoFailure { path: String, operation: String },
    /// Reading the audio or running the recogniser failed.
    UpstreamFailure,
}

/// A failure of one transcription: its kind, and a text for the user.
#[derive(Debug, Clone, PartialEq, Eq)]
pub struct TranscribeError {
    pub kind: ErrorKind,
    pub detail: String,
}

/// The text that reports `value` as an output format that is not accepted.
/// It names the value and the three formats that are.
pub open spec fn invalid_format_text(value: Seq<char>) -> Seq<char> {
    seq![
        'I', 'n', 'v', 'a', 'l', 'i', 'd', ' ', 'o', 'u', 't', 'p', 'u', 't', ' ', 'f', 'o', 'r',
        'm', 'a', 't', ':', ' ',
    ] + value + seq![
        '.', ' ', 'U', 's', 'e', ' ', '"', 's', 'r', 't', '"', ',', ' ', '"', 't', 'x', 't', '"',
        ',', ' ', 'o', 'r', ' ', '"', 'b', 'o', 't', 'h', '"', '.',
    ]
}

/// The text that reports that `operation` failed for the reason `cause`.
pub open spec fn io_failure_text(operation: Seq<char>, cause: Seq<char>) -> Seq<char> {
    seq!['F', 'a', 'i', 'l', 'e', 'd', ' ', 't', 'o', ' '] + operation + seq![':', ' '] + cause
}

impl TranscribeError {
    /// The failure for an output format that is not accepted.
    pub fn invalid_format(value: &str) -> (error: TranscribeError)
        ensures
            error.kind == ErrorKind::InvalidFormat,
            error.detail@ == invalid_format_text(value@),
    {
        let mut detail = String::from_str("Invalid output format: ");
        detail.append(value);
        detail.append(". Use \"srt\", \"txt\", or \"both\".");
        proof {
            reveal_strlit("Invalid output format: ");
            reveal_strlit(". Use \"srt\", \"txt\", or \"both\".");
            assert(detail@ =~= invalid_format_text(value@));
        }
        TranscribeError { kind: ErrorKind::InvalidFormat, detail }
    }

    /// The failure of `operation` on the output file at `path`, for the
    /// reason `cause`.
    pub fn io_failure(path: &str, operation: &str, cause: &str) -> (error: TranscribeError)
        ensures
            error.kind is IoFailure,
            error.kind->path@ == path@,
            error.kind->operation@ == operation@,
            error.detail@ == io_failure_text(operation@, cause@),
    {
        let mut detail = String::from_str("Failed to ");
        detail.append(operation);
        detail.append(": ");
        detail.append(cause);
        proof {
            reveal_strlit("Failed to ");
            reveal_strlit(": ");
            assert(detail@ =~= io_failure_text(operation@, cause@));
        }
        TranscribeError {
            kind: ErrorKind::IoFailure {
                path: String::from_str(path),
                operation: String::from_str(operation),
            },
            detail,
        }
    }

    /// A failure that happened before the segments existed, passed on with
    /// its text unchanged.
    pub fn upstream(detail: &str) -> (error: TranscribeError)
        ensures
            error.kind == ErrorKind::UpstreamFailure,
            error.detail@ == detail@,
    {
        TranscribeError { kind: ErrorKind::UpstreamFailure, detail: String::from_str(detail) }
    }

    /// The text for the user.
    pub fn message(&self) -> (text: String)
        ensures
            text@ == self.detail@,
    {
        self.detail.clone()
    }
}

} // verus!
