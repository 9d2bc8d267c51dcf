//! Merging: how consecutive segments are folded into chunks within a limit
//! on duration and a limit on length.

use crate::segment::{chunk_spans, segment_spans, texts, Chunk, RawSegment, Span};
use crate::text::{join_two, joined, push_joined};
use vstd::prelude::*;

verus! {

/// The chunk that a run of consecutive segments forms: it lasts from the start
/// of the first to the end of the last, and its text is theirs, joined.
pub open spec fn chunk_of(run: Seq<Span>) -> Span {
    Span { start: run.first().start, end: run.last().end, text: joined(texts(run)) }
}

/// Whether the chunk that `run` forms is within both limits. A limit of zero
/// is switched off. The duration is the span from the start of the first
/// segment to the end of the last, whatever lies between.
pub open spec fn fits(run: Seq<Span>, max_duration: int, max_chars: int) -> bool {
    let chunk = chunk_of(run);
    &&& max_duration == 0 || chunk.end - chunk.start <= max_duration
    &&& max_chars == 0 || chunk.text.len() <= max_chars
}

/// The runs into which merging cuts a sequence of segments. The runs of a
/// sequence are those of all but its last segment; the last segment then
/// joins the last run if the chunk so formed fits, and otherwise starts a
/// run of its own.
pub open spec fn runs(segments: Seq<Span>, max_duration: int, max_chars: int) -> Seq<Seq<Span>>
    decreases segments.len(),
{
    if segments.len() == 0 {
        Seq::empty()
    } else {
        let before = runs(segments.drop_last(), max_duration, max_chars);
        let segment = segments.last();
        if before.len() > 0 && fits(before.last().push(segment), max_duration, max_chars) {
            before.drop_last().push(before.last().push(segment))
        } else {
            before.push(seq![segment])
        }
    }
}

/// The chunks that a sequence of runs forms, one for each run.
pub open spec fn chunks_of(runs: Seq<Seq<Span>>) -> Seq<Span> {
    runs.map_values(|run: Seq<Span>| chunk_of(run))
}

/// The chunks that merging makes of a sequence of segments: one for each run.
pub open spec fn merged(segments: Seq<Span>, max_duration: int, max_chars: int) -> Seq<Span> {
    chunks_of(runs(segments, max_duration, max_chars))
}

/// No run is empty, and there is a run as soon as there is a segment.
pub proof fn lemma_runs_nonempty(segments: Seq<Span>, max_duration: int, max_chars: int)
    ensures
        forall|i: int|
            0 <= i < runs(segments, max_duration, max_chars).len() ==> (#[trigger] runs(
                segments,
                max_duration,
                max_chars,
            )[i]).len() > 0,
        segments.len() > 0 ==> runs(segments, max_duration, max_chars).len() > 0,
    decreases segments.len(),
{
    if segments.len() > 0 {
        lemma_runs_nonempty(segments.drop_last(), max_duration, max_chars);
        let before = runs(segments.drop_last(), max_duration, max_chars);
        let after = runs(segments, max_duration, max_chars);
        assert forall|i: int| 0 <= i < after.len() implies (#[trigger] after[i]).len() > 0 by {
            if i < after.len() - 1 {
                assert(after[i] == before[i]);
            }
        }
    }
}

/// The chunks of a sequence of runs with one more run at its end.
pub proof fn lemma_chunks_of_push(runs: Seq<Seq<Span>>, run: Seq<Span>)
    ensures
        chunks_of(runs.push(run)) == chunks_of(runs).push(chunk_of(run)),
{
    assert(chunks_of(runs.push(run)) =~= chunks_of(runs).push(chunk_of(run)));
}

/// A single segment is a run by itself, and the chunk it forms is the
/// segment unchanged.
pub proof fn lemma_single_segment(segment: Span, max_duration: int, max_chars: int)
    ensures
        runs(seq![segment], max_duration, max_chars) == seq![seq![segment]],
        chunk_of(seq![segment]) == segment,
{
    let one = seq![segment];
    assert(one.drop_last() =~= Seq::<Span>::empty());
    assert(runs(one.drop_last(), max_duration, max_chars) =~= Seq::<Seq<Span>>::empty());
    assert(runs(one, max_duration, max_chars) =~= seq![one]);
    assert(texts(one) =~= seq![segment.text]);
    assert(texts(one).drop_last() =~= Seq::<Seq<char>>::empty());
    assert(joined(texts(one).drop_last()) =~= Seq::<char>::empty());
}

/// A run that takes one more segment forms the chunk it formed before, with
/// its end moved to that segment's end and that segment's text joined on.
pub proof fn lemma_chunk_of_push(run: Seq<Span>, segment: Span)
    requires
        run.len() > 0,
    ensures
        chunk_of(run.push(segment)) == (Span {
            start: chunk_of(run).start,
            end: segment.end,
            text: join_two(chunk_of(run).text, segment.text),
        }),
{
    let longer = run.push(segment);
    assert(texts(longer).drop_last() =~= texts(run));
    assert(texts(longer).last() == segment.text);
}

/// Folds consecutive segments into chunks. A segment joins the chunk being
/// built if the chunk would then still be within both limits, measured from
/// the chunk's own start to the segment's end and over the joined text;
/// otherwise the chunk is closed and the segment starts the next one.
/// `max_duration` is in hundredths of a second, `max_chars` in characters;
/// zero switches a limit off. No segment is dropped or split.
pub fn merge_segments(segments: &Vec<RawSegment>, max_duration: u64, max_chars: u32) -> (chunks:
    Vec<Chunk>)
    ensures
        chunk_spans(chunks@) == merged(
            segment_spans(segments@),
            max_duration as int,
            max_chars as int,
        ),
{
    let mut chunks: Vec<Chunk> = Vec::new();
    let ghost spans = segment_spans(segments@);
    let ghost d = max_duration as int;
    let ghost c = max_chars as int;
    if segments.len() == 0 {
        assert(chunk_spans(chunks@) =~= merged(spans, d, c));
        return chunks;
    }
    let mut current = Chunk {
        start: segments[0].start,
        end: segments[0].end,
        text: segments[0].text.clone(),
    };
    proof {
        lemma_single_segment(spans[0], d, c);
        assert(spans.take(1) =~= seq![spans[0]]);
        assert(chunk_spans(chunks@) =~= chunks_of(runs(spans.take(1), d, c).drop_last()));
    }
    let mut i: usize = 1;
    while i < segments.len()
        invariant
            1 <= i <= segments.len(),
            spans == segment_spans(segments@),
            d == max_duration as int,
            c == max_chars as int,
            runs(spans.take(i as int), d, c).len() > 0,
            runs(spans.take(i as int), d, c).last().len() > 0,
            chunk_spans(chunks@) == chunks_of(runs(spans.take(i as int), d, c).drop_last()),
            current@ == chunk_of(runs(spans.take(i as int), d, c).last()),
        decreases segments.len() - i,
    {
        let segment = &segments[i];
        let ghost before = runs(spans.take(i as int), d, c);
        let ghost next = spans.take(i as int + 1);
        proof {
            assert(next.drop_last() =~= spans.take(i as int));
            assert(next.last() == segment@);
            lemma_chunk_of_push(before.last(), segment@);
        }
        let mut text = current.text.clone();
        push_joined(&mut text, segment.text.as_str());
        let duration_ok = max_duration == 0 || (segment.end as i128) - (current.start as i128)
            <= max_duration as i128;
        let chars_ok = max_chars == 0 || text.as_str().unicode_len() <= max_chars as usize;
        if duration_ok && chars_ok {
            current.end = segment.end;
            current.text = text;
            proof {
                let after = runs(next, d, c);
                assert(after == before.drop_last().push(before.last().push(segment@)));
                assert(after.drop_last() =~= before.drop_last());
            }
        } else {
            let ghost closed = chunks@;
            let ghost last = current@;
            chunks.push(current);
            current = Chunk { start: segment.start, end: segment.end, text: segment.text.clone() };
            proof {
                let after = runs(next, d, c);
                assert(after == before.push(seq![segment@]));
                assert(after.drop_last() =~= before);
                assert(before =~= before.drop_last().push(before.last()));
                lemma_chunks_of_push(before.drop_last(), before.last());
                assert(chunk_spans(chunks@) =~= chunk_spans(closed).push(last));
                lemma_single_segment(segment@, d, c);
            }
        }
        i = i + 1;
    }
    let ghost closed = chunks@;
    let ghost last = current@;
    chunks.push(current);
    proof {
        assert(spans.take(i as int) =~= spans);
        let all = runs(spans, d, c);
        assert(all =~= all.drop_last().push(all.last()));
        lemma_chunks_of_push(all.drop_last(), all.last());
        assert(chunk_spans(chunks@) =~= chunk_spans(closed).push(last));
    }
    chunks
}

} // verus!
