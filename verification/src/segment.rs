//! Segments and chunks, their view in contracts, and how the recogniser's
//! fragments become segments.

use crate::text::{is_clean, lemma_trimmed_is_clean, trim, trimmed};
use vstd::prelude::*;

verus! {

/// What a segment or a chunk is to the contracts: a stretch of time, in
/// hundredths of a second, and the text spoken in it.
pub struct Span {
    pub start: int,
    pub end: int,
    pub text: Seq<char>,
}

/// One fragment of recognised speech with its text cleaned: the smallest
/// piece that merging works with. It is never split.
#[derive(Debug, Clone, PartialEq, Eq)]
pub struct RawSegment {
    pub start: i64,
    pub end: i64,
    pub text: String,
}

/// One unit of output: one or more consecutive segments shown together.
#[derive(Debug, Clone, PartialEq, Eq)]
pub struct Chunk {
    pub start: i64,
    pub end: i64,
    pub text: String,
}

impl View for RawSegment {
    type V = Span;

    open spec fn view(&self) -> Span {
        Span { start: self.start as int, end: self.end as int, text: self.text@ }
    }
}

impl View for Chunk {
    type V = Span;

    open spec fn view(&self) -> Span {
        Span { start: self.start as int, end: self.end as int, text: self.text@ }
    }
}

/// The segments of a vector as the contracts see them.
pub open spec fn segment_spans(segments: Seq<RawSegment>) -> Seq<Span> {
    segments.map_values(|segment: RawSegment| segment@)
}

/// The chunks of a vector as the contracts see them.
pub open spec fn chunk_spans(chunks: Seq<Chunk>) -> Seq<Span> {
    chunks.map_values(|chunk: Chunk| chunk@)
}

/// The texts of a sequence of spans, in order.
pub open spec fn texts(spans: Seq<Span>) -> Seq<Seq<char>> {
    spans.map_values(|span: Span| span.text)
}

/// Whether every span carries some text.
pub open spec fn all_have_text(spans: Seq<Span>) -> bool {
    forall|i: int| 0 <= i < spans.len() ==> (#[trigger] spans[i]).text.len() > 0
}

/// Whether the text of every span is clean.
pub open spec fn all_clean(spans: Seq<Span>) -> bool {
    forall|i: int| 0 <= i < spans.len() ==> is_clean((#[trigger] spans[i]).text)
}

/// Whether each span starts later than the one before it.
pub open spec fn starts_increase(spans: Seq<Span>) -> bool {
    forall|i: int, j: int|
        0 <= i < j < spans.len() ==> (#[trigger] spans[i]).start < (#[trigger] spans[j]).start
}

/// Whether no span starts earlier than the one before it.
pub open spec fn starts_in_order(spans: Seq<Span>) -> bool {
    forall|i: int, j: int|
        0 <= i < j < spans.len() ==> (#[trigger] spans[i]).start <= (#[trigger] spans[j]).start
}

/// Whether no span ends earlier than the one before it.
pub open spec fn ends_in_order(spans: Seq<Span>) -> bool {
    forall|i: int, j: int|
        0 <= i < j < spans.len() ==> (#[trigger] spans[i]).end <= (#[trigger] spans[j]).end
}

/// Whether each span has ended when the next one starts.
pub open spec fn no_overlap(spans: Seq<Span>) -> bool {
    forall|i: int| 0 <= i && i + 1 < spans.len() ==> (#[trigger] spans[i]).end <= spans[i + 1].start
}

/// A fragment as the recogniser yields it, before its text is cleaned: start,
/// end and text.
pub open spec fn fragment_span(fragment: (i64, i64, String)) -> Span {
    Span { start: fragment.0 as int, end: fragment.1 as int, text: fragment.2@ }
}

/// The fragments of a vector as the contracts see them.
pub open spec fn fragment_spans(fragments: Seq<(i64, i64, String)>) -> Seq<Span> {
    fragments.map_values(|fragment: (i64, i64, String)| fragment_span(fragment))
}

/// The segments that are kept of a sequence of fragments: each fragment with
/// the white space at the ends of its text taken away, in order, but for the
/// fragments of which no text is left then.
pub open spec fn collected(fragments: Seq<Span>) -> Seq<Span>
    decreases fragments.len(),
{
    if fragments.len() == 0 {
        Seq::empty()
    } else {
        let before = collected(fragments.drop_last());
        let last = fragments.last();
        let text = trimmed(last.text);
        if text.len() == 0 {
            before
        } else {
            before.push(Span { start: last.start, end: last.end, text })
        }
    }
}

/// Every segment that is kept has a clean text.
pub proof fn lemma_collected_clean(fragments: Seq<Span>)
    ensures
        all_clean(collected(fragments)),
    decreases fragments.len(),
{
    if fragments.len() > 0 {
        lemma_collected_clean(fragments.drop_last());
        lemma_trimmed_is_clean(fragments.last().text);
    }
}

impl RawSegment {
    /// The segment for one fragment of recognised speech. Its text is
    /// `text` without the white space at its ends; a fragment of which no
    /// text is left gives no segment.
    pub fn new(start: i64, end: i64, text: &str) -> (segment: Option<RawSegment>)
        ensures
            segment is Some <==> trimmed(text@).len() > 0,
            segment is Some ==> segment->0@ == (Span {
                start: start as int,
                end: end as int,
                text: trimmed(text@),
            }),
    {
        let clean = trim(text);
        if clean.is_empty() {
            None
        } else {
            Some(RawSegment { start, end, text: clean.to_owned() })
        }
    }
}

/// Turns what the recogniser yields into segments, in order: trims each
/// text and leaves out the fragments that hold nothing but white space.
pub fn collect_segments(fragments: &Vec<(i64, i64, String)>) -> (segments: Vec<RawSegment>)
    ensures
        segment_spans(segments@) == collected(fragment_spans(fragments@)),
{
    let mut segments: Vec<RawSegment> = Vec::new();
    let ghost spans = fragment_spans(fragments@);
    let mut i: usize = 0;
    assert(segment_spans(segments@) =~= collected(spans.take(0)));
    while i < fragments.len()
        invariant
            i <= fragments.len(),
            spans == fragment_spans(fragments@),
            segment_spans(segments@) == collected(spans.take(i as int)),
        decreases fragments.len() - i,
    {
        let fragment = &fragments[i];
        let ghost kept = segments@;
        proof {
            assert(spans.take(i as int + 1).drop_last() =~= spans.take(i as int));
            assert(spans.take(i as int + 1).last() == fragment_span(*fragment));
        }
        match RawSegment::new(fragment.0, fragment.1, fragment.2.as_str()) {
            Some(segment) => {
                segments.push(segment);
                assert(segment_spans(segments@) =~= segment_spans(kept).push(segment@));
            },
            None => {},
        }
        i = i + 1;
    }
    assert(spans.take(i as int) =~= spans);
    segments
}

} // verus!
