//! Writing the chunks out: the subtitle file, the transcript file and the
//! transcript string, and the whole way from segments to them.

use crate::digits::{decimal, push_decimal};
use crate::merge::{merge_segments, merged};
use crate::request::OutputRequest;
use crate::runs::{lemma_merged_clean, lemma_text_preserved};
use crate::segment::{
    all_clean, chunk_spans, collected, lemma_collected_clean, segment_spans, texts, Chunk,
    RawSegment, Span,
};
use crate::text::{joined, lemma_clean_is_trimmed, push_joined, trim, trimmed};
use crate::timestamp::{format_timestamp, timestamp_text};
use vstd::prelude::*;

verus! {

/// The texts of the chunks as they are written out: each without white
/// space at its ends.
pub open spec fn written_texts(chunks: Seq<Span>) -> Seq<Seq<char>> {
    chunks.map_values(|chunk: Span| trimmed(chunk.text))
}

/// The transcript: the written texts of all chunks, in order, joined by
/// single spaces, with nothing after the last.
pub open spec fn transcript_text(chunks: Seq<Span>) -> Seq<char> {
    joined(written_texts(chunks))
}

/// What stands between the two timestamps of a subtitle entry.
pub open spec fn arrow() -> Seq<char> {
    seq![' ', '-', '-', '>', ' ']
}

/// One entry of a subtitle file: a line with the entry's number, a line
/// with the start and end timestamps, a line with the text, and an empty
/// line.
pub open spec fn subtitle_entry(number: nat, chunk: Span) -> Seq<char> {
    decimal(number) + seq!['\n'] + timestamp_text(chunk.start) + arrow() + timestamp_text(
        chunk.end,
    ) + seq!['\n'] + trimmed(chunk.text) + seq!['\n'] + seq!['\n']
}

/// The subtitle file: one entry for each chunk, in order, numbered from one.
pub open spec fn subtitle_text(chunks: Seq<Span>) -> Seq<char>
    decreases chunks.len(),
{
    if chunks.len() == 0 {
        Seq::empty()
    } else {
        subtitle_text(chunks.drop_last()) + subtitle_entry(chunks.len(), chunks.last())
    }
}

/// The transcript file: one line for each chunk, holding its written text.
pub open spec fn lines_text(chunks: Seq<Span>) -> Seq<char>
    decreases chunks.len(),
{
    if chunks.len() == 0 {
        Seq::empty()
    } else {
        lines_text(chunks.drop_last()) + trimmed(chunks.last().text) + seq!['\n']
    }
}

/// What a transcription yields: the transcript for the caller, and the
/// contents of the files that were asked for.
#[derive(Debug, Clone, PartialEq, Eq)]
pub struct Transcription {
    /// The whole transcript in one string.
    pub transcript: String,
    /// What the subtitle file is to hold, if one was asked for.
    pub subtitle_file: Option<String>,
    /// What the transcript file is to hold, if one was asked for.
    pub transcript_file: Option<String>,
}

/// A transcription as the contracts see it.
pub struct TranscriptionText {
    pub transcript: Seq<char>,
    pub subtitle_file: Option<Seq<char>>,
    pub transcript_file: Option<Seq<char>>,
}

impl View for Transcription {
    type V = TranscriptionText;

    open spec fn view(&self) -> TranscriptionText {
        TranscriptionText {
            transcript: self.transcript@,
            subtitle_file: self.subtitle_file.deep_view(),
            transcript_file: self.transcript_file.deep_view(),
        }
    }
}

/// What writing the chunks out yields: the transcript in any case, and
/// each of the two files if it is asked for.
pub open spec fn rendered(
    chunks: Seq<Span>,
    write_subtitle: bool,
    write_transcript: bool,
) -> TranscriptionText {
    TranscriptionText {
        transcript: transcript_text(chunks),
        subtitle_file: if write_subtitle {
            Some(subtitle_text(chunks))
        } else {
            None
        },
        transcript_file: if write_transcript {
            Some(lines_text(chunks))
        } else {
            None
        },
    }
}

/// Appends one subtitle entry to `out`.
fn push_subtitle_entry(out: &mut String, number: u64, chunk: &Chunk, text: &str)
    requires
        text@ == trimmed(chunk@.text),
    ensures
        final(out)@ == old(out)@ + subtitle_entry(number as nat, chunk@),
{
    let start = format_timestamp(chunk.start);
    let end = format_timestamp(chunk.end);
    push_decimal(out, number);
    out.push('\n');
    out.append(start.as_str());
    out.append(" --> ");
    out.append(end.as_str());
    out.push('\n');
    out.append(text);
    out.push('\n');
    out.push('\n');
    proof {
        reveal_strlit(" --> ");
        assert(" --> "@ =~= arrow());
        assert(out@ =~= old(out)@ + subtitle_entry(number as nat, chunk@));
    }
}

/// Writes the chunks out in one pass: the transcript always, the subtitle
/// file and the transcript file as far as they are asked for.
pub fn render_chunks(chunks: &Vec<Chunk>, write_subtitle: bool, write_transcript: bool) -> (out:
    Transcription)
    ensures
        out@ == rendered(chunk_spans(chunks@), write_subtitle, write_transcript),
{
    let ghost spans = chunk_spans(chunks@);
    let mut transcript = String::new();
    let mut subtitles = String::new();
    let mut lines = String::new();
    let mut i: usize = 0;
    assert(written_texts(spans.take(0)) =~= Seq::<Seq<char>>::empty());
    while i < chunks.len()
        invariant
            i <= chunks.len(),
            spans == chunk_spans(chunks@),
            transcript@ == transcript_text(spans.take(i as int)),
            write_subtitle ==> subtitles@ == subtitle_text(spans.take(i as int)),
            write_transcript ==> lines@ == lines_text(spans.take(i as int)),
        decreases chunks.len() - i,
    {
        let chunk = &chunks[i];
        let text = trim(chunk.text.as_str());
        proof {
            let next = spans.take(i as int + 1);
            assert(next.drop_last() =~= spans.take(i as int));
            assert(next.last() == chunk@);
            assert(written_texts(next).drop_last() =~= written_texts(spans.take(i as int)));
        }
        push_joined(&mut transcript, text);
        if write_subtitle {
            push_subtitle_entry(&mut subtitles, (i + 1) as u64, chunk, text);
        }
        if write_transcript {
            lines.append(text);
            lines.push('\n');
            assert(lines@ =~= lines_text(spans.take(i as int)) + text@ + seq!['\n']);
        }
        i = i + 1;
    }
    assert(spans.take(i as int) =~= spans);
    Transcription {
        transcript,
        subtitle_file: if write_subtitle {
            Some(subtitles)
        } else {
            None
        },
        transcript_file: if write_transcript {
            Some(lines)
        } else {
            None
        },
    }
}

/// Makes the chunks of the segments within the request's limits and writes
/// them out as the request asks. The result is fixed by the segments and
/// the request alone: doing it again gives the same transcript and the same
/// files, character for character.
pub fn transcribe(segments: &Vec<RawSegment>, request: &OutputRequest) -> (out: Transcription)
    ensures
        out@ == rendered(
            merged(
                segment_spans(segments@),
                request.max_segment_duration as int,
                request.max_chars_per_chunk as int,
            ),
            request.write_subtitle,
            request.write_transcript,
        ),
{
    let chunks = merge_segments(
        segments,
        request.max_segment_duration,
        request.max_chars_per_chunk,
    );
    render_chunks(&chunks, request.write_subtitle, request.write_transcript)
}

/// No text is gained, lost or reordered on the way: where the texts of the
/// segments are clean, the transcript is their texts, in order, joined by
/// single spaces, whatever the limits are.
pub proof fn lemma_transcript_is_all_text(segments: Seq<Span>, max_duration: int, max_chars: int)
    requires
        all_clean(segments),
    ensures
        transcript_text(merged(segments, max_duration, max_chars)) == joined(texts(segments)),
{
    let chunks = merged(segments, max_duration, max_chars);
    lemma_merged_clean(segments, max_duration, max_chars);
    assert forall|k: int| 0 <= k < chunks.len() implies written_texts(chunks)[k] == texts(
        chunks,
    )[k] by {
        lemma_clean_is_trimmed(chunks[k].text);
    }
    assert(written_texts(chunks) =~= texts(chunks));
    lemma_text_preserved(segments, max_duration, max_chars);
}

/// From the recogniser to the transcript: the transcript is the trimmed
/// texts of the fragments that say anything, in order, joined by single
/// spaces, whatever the limits are.
pub proof fn lemma_transcript_of_fragments(
    fragments: Seq<Span>,
    max_duration: int,
    max_chars: int,
)
    ensures
        transcript_text(merged(collected(fragments), max_duration, max_chars)) == joined(
            texts(collected(fragments)),
        ),
{
    lemma_collected_clean(fragments);
    lemma_transcript_is_all_text(collected(fragments), max_duration, max_chars);
}

/// Nothing comes of nothing: without segments there are no chunks, the
/// transcript is empty, and each file that is asked for is there and empty.
pub proof fn lemma_empty_input(
    max_duration: int,
    max_chars: int,
    write_subtitle: bool,
    write_transcript: bool,
)
    ensures
        merged(Seq::empty(), max_duration, max_chars) == Seq::<Span>::empty(),
        ({
            let out = rendered(
                merged(Seq::empty(), max_duration, max_chars),
                write_subtitle,
                write_transcript,
            );
            &&& out.transcript == Seq::<char>::empty()
            &&& write_subtitle ==> out.subtitle_file == Some(Seq::<char>::empty())
            &&& !write_subtitle ==> out.subtitle_file is None
            &&& write_transcript ==> out.transcript_file == Some(Seq::<char>::empty())
            &&& !write_transcript ==> out.transcript_file is None
        }),
{
    assert(merged(Seq::empty(), max_duration, max_chars) =~= Seq::<Span>::empty());
    assert(written_texts(Seq::empty()) =~= Seq::<Seq<char>>::empty());
}

} // verus!
