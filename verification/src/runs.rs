//! What holds of the runs that merging cuts the segments into: they only
//! cut, they keep the order, they stay within the limits where they can,
//! and they lose no text.

use crate::merge::{
    chunk_of, chunks_of, fits, lemma_chunk_of_push, lemma_chunks_of_push, lemma_runs_nonempty,
    lemma_single_segment, merged, runs,
};
use crate::segment::{
    all_clean, all_have_text, ends_in_order, no_overlap, starts_in_order, starts_increase, texts,
    Span,
};
use crate::text::{is_clean, join_two, joined, lemma_join_two_clean};
use vstd::prelude::*;
use vstd::seq_lib::lemma_flatten_concat;

verus! {

/// The number of segments that the runs before run `k` hold together: the
/// place of run `k`'s first segment among all the segments.
pub open spec fn offset(runs: Seq<Seq<Span>>, k: int) -> int {
    runs.take(k).flatten().len() as int
}

/// Each run stands in the concatenation of all runs at its offset, and the
/// next run follows it directly.
pub proof fn lemma_run_position(runs: Seq<Seq<Span>>, k: int)
    requires
        0 <= k < runs.len(),
    ensures
        offset(runs, 0) == 0,
        offset(runs, k + 1) == offset(runs, k) + runs[k].len(),
        offset(runs, k + 1) <= runs.flatten().len(),
        runs[k] == runs.flatten().subrange(offset(runs, k), offset(runs, k + 1)),
{
    let head = runs.take(k);
    let tail = runs.skip(k + 1);
    assert(runs.take(0).flatten() =~= Seq::<Span>::empty());
    assert(runs.take(k + 1) =~= head.push(runs[k]));
    head.lemma_flatten_push(runs[k]);
    assert(runs =~= runs.take(k + 1) + tail);
    lemma_flatten_concat(runs.take(k + 1), tail);
    assert(runs[k] =~= runs.flatten().subrange(offset(runs, k), offset(runs, k + 1)));
}

/// Merging only cuts: the runs, written one after another, are the segments
/// that went in, each once and in their order.
pub proof fn lemma_runs_concatenate(segments: Seq<Span>, max_duration: int, max_chars: int)
    ensures
        runs(segments, max_duration, max_chars).flatten() == segments,
    decreases segments.len(),
{
    if segments.len() == 0 {
        assert(runs(segments, max_duration, max_chars).flatten() =~= segments);
    } else {
        let shorter = segments.drop_last();
        let segment = segments.last();
        let before = runs(shorter, max_duration, max_chars);
        lemma_runs_concatenate(shorter, max_duration, max_chars);
        if before.len() > 0 && fits(before.last().push(segment), max_duration, max_chars) {
            assert(before =~= before.drop_last().push(before.last()));
            before.drop_last().lemma_flatten_push(before.last());
            before.drop_last().lemma_flatten_push(before.last().push(segment));
            assert(runs(segments, max_duration, max_chars).flatten() =~= shorter.push(segment));
        } else {
            before.lemma_flatten_push(seq![segment]);
            assert(runs(segments, max_duration, max_chars).flatten() =~= shorter.push(segment));
        }
        assert(shorter.push(segment) =~= segments);
    }
}

/// Each chunk is made of a stretch of consecutive segments: run `k` is the
/// stretch of the input that begins at its offset.
pub proof fn lemma_run_is_stretch(segments: Seq<Span>, max_duration: int, max_chars: int, k: int)
    requires
        0 <= k < runs(segments, max_duration, max_chars).len(),
    ensures
        ({
            let all = runs(segments, max_duration, max_chars);
            &&& 0 <= offset(all, k) < offset(all, k + 1) <= segments.len()
            &&& all[k] == segments.subrange(offset(all, k), offset(all, k + 1))
            &&& merged(segments, max_duration, max_chars)[k].start == segments[offset(all, k)].start
            &&& merged(segments, max_duration, max_chars)[k].end == segments[offset(all, k + 1)
                - 1].end
        }),
{
    let all = runs(segments, max_duration, max_chars);
    lemma_runs_concatenate(segments, max_duration, max_chars);
    lemma_runs_nonempty(segments, max_duration, max_chars);
    lemma_run_position(all, k);
    assert(all[k].len() > 0);
    assert(all[k].first() == segments[offset(all, k)]);
    assert(all[k].last() == segments[offset(all, k + 1) - 1]);
}

/// Later runs stand later among the segments.
pub proof fn lemma_offsets_increase(runs: Seq<Seq<Span>>, k: int, l: int)
    requires
        0 <= k < l <= runs.len(),
        forall|i: int| 0 <= i < runs.len() ==> (#[trigger] runs[i]).len() > 0,
    ensures
        offset(runs, k) < offset(runs, l),
    decreases l - k,
{
    lemma_run_position(runs, l - 1);
    if k < l - 1 {
        lemma_offsets_increase(runs, k, l - 1);
    }
}

/// Where each segment starts later than the one before it, so does each
/// chunk.
pub proof fn lemma_chunk_starts_increase(segments: Seq<Span>, max_duration: int, max_chars: int)
    requires
        starts_increase(segments),
    ensures
        starts_increase(merged(segments, max_duration, max_chars)),
{
    let all = runs(segments, max_duration, max_chars);
    let chunks = merged(segments, max_duration, max_chars);
    lemma_runs_nonempty(segments, max_duration, max_chars);
    assert forall|k: int, l: int| 0 <= k < l < chunks.len() implies (#[trigger] chunks[k]).start < (
    #[trigger] chunks[l]).start by {
        lemma_run_is_stretch(segments, max_duration, max_chars, k);
        lemma_run_is_stretch(segments, max_duration, max_chars, l);
        lemma_offsets_increase(all, k, l);
    }
}

/// Where the segments come in order of their starts, each chunk but the
/// first begins with a segment that starts no earlier than the last segment
/// that the chunk before it took in.
pub proof fn lemma_chunks_follow(segments: Seq<Span>, max_duration: int, max_chars: int, k: int)
    requires
        starts_in_order(segments),
        0 <= k,
        k + 1 < runs(segments, max_duration, max_chars).len(),
    ensures
        runs(segments, max_duration, max_chars)[k].last().start <= merged(
            segments,
            max_duration,
            max_chars,
        )[k + 1].start,
{
    let all = runs(segments, max_duration, max_chars);
    lemma_run_is_stretch(segments, max_duration, max_chars, k);
    lemma_run_is_stretch(segments, max_duration, max_chars, k + 1);
    assert(all[k].last() == segments[offset(all, k + 1) - 1]);
}

/// Where the segments do not overlap, neither do the chunks.
pub proof fn lemma_chunks_do_not_overlap(segments: Seq<Span>, max_duration: int, max_chars: int)
    requires
        no_overlap(segments),
    ensures
        no_overlap(merged(segments, max_duration, max_chars)),
{
    let all = runs(segments, max_duration, max_chars);
    let chunks = merged(segments, max_duration, max_chars);
    assert forall|k: int| 0 <= k && k + 1 < chunks.len() implies (#[trigger] chunks[k]).end
        <= chunks[k + 1].start by {
        lemma_run_is_stretch(segments, max_duration, max_chars, k);
        lemma_run_is_stretch(segments, max_duration, max_chars, k + 1);
        let last = offset(all, k + 1) - 1;
        assert(segments[last].end <= segments[last + 1].start);
    }
}

/// Where the segments come in order, by their starts and by their ends, a
/// chunk spans all the segments it is made of: it starts with the earliest
/// and ends with the latest of them.
pub proof fn lemma_chunk_spans_its_run(
    segments: Seq<Span>,
    max_duration: int,
    max_chars: int,
    k: int,
    i: int,
)
    requires
        starts_in_order(segments),
        ends_in_order(segments),
        0 <= k < runs(segments, max_duration, max_chars).len(),
        0 <= i < runs(segments, max_duration, max_chars)[k].len(),
    ensures
        merged(segments, max_duration, max_chars)[k].start <= runs(
            segments,
            max_duration,
            max_chars,
        )[k][i].start,
        runs(segments, max_duration, max_chars)[k][i].end <= merged(
            segments,
            max_duration,
            max_chars,
        )[k].end,
{
    let all = runs(segments, max_duration, max_chars);
    lemma_run_is_stretch(segments, max_duration, max_chars, k);
    assert(all[k][i] == segments[offset(all, k) + i]);
}

/// A run of two or more segments forms a chunk within both limits: every
/// segment after the first was taken in only because the chunk still fitted.
pub proof fn lemma_long_runs_fit(segments: Seq<Span>, max_duration: int, max_chars: int)
    ensures
        forall|k: int|
            0 <= k < runs(segments, max_duration, max_chars).len() && (#[trigger] runs(
                segments,
                max_duration,
                max_chars,
            )[k]).len() >= 2 ==> fits(
                runs(segments, max_duration, max_chars)[k],
                max_duration,
                max_chars,
            ),
    decreases segments.len(),
{
    if segments.len() > 0 {
        lemma_long_runs_fit(segments.drop_last(), max_duration, max_chars);
        let before = runs(segments.drop_last(), max_duration, max_chars);
        let after = runs(segments, max_duration, max_chars);
        assert forall|k: int| 0 <= k < after.len() && (#[trigger] after[k]).len() >= 2 implies fits(
            after[k],
            max_duration,
            max_chars,
        ) by {
            if k < after.len() - 1 {
                assert(after[k] == before[k]);
            }
        }
    }
}

/// A chunk is over a limit only if it is a single segment that is over that
/// limit by itself; such a segment is passed on as it is.
pub proof fn lemma_limits_respected(
    segments: Seq<Span>,
    max_duration: int,
    max_chars: int,
    k: int,
)
    requires
        0 <= k < merged(segments, max_duration, max_chars).len(),
    ensures
        ({
            let run = runs(segments, max_duration, max_chars)[k];
            let chunk = merged(segments, max_duration, max_chars)[k];
            &&& max_chars > 0 && chunk.text.len() > max_chars ==> run.len() == 1 && chunk == run[0]
            &&& max_duration > 0 && chunk.end - chunk.start > max_duration ==> run.len() == 1
                && chunk == run[0]
        }),
{
    let run = runs(segments, max_duration, max_chars)[k];
    lemma_long_runs_fit(segments, max_duration, max_chars);
    lemma_runs_nonempty(segments, max_duration, max_chars);
    if run.len() == 1 {
        lemma_single_segment(run[0], max_duration, max_chars);
        assert(run =~= seq![run[0]]);
    }
}

/// With both limits switched off, all the segments form one chunk.
pub proof fn lemma_unlimited_is_one_chunk(segments: Seq<Span>)
    requires
        segments.len() > 0,
    ensures
        runs(segments, 0, 0) == seq![segments],
        merged(segments, 0, 0) == seq![chunk_of(segments)],
    decreases segments.len(),
{
    let shorter = segments.drop_last();
    if shorter.len() == 0 {
        assert(segments =~= seq![segments.last()]);
        lemma_single_segment(segments.last(), 0, 0);
    } else {
        lemma_unlimited_is_one_chunk(shorter);
        assert(runs(segments, 0, 0) =~= seq![shorter.push(segments.last())]);
        assert(shorter.push(segments.last()) =~= segments);
    }
    assert(merged(segments, 0, 0) =~= seq![chunk_of(segments)]);
}

/// A chunk is closed only when it must be: the segment that starts the next
/// chunk would have taken it over a limit.
pub proof fn lemma_runs_are_maximal(segments: Seq<Span>, max_duration: int, max_chars: int)
    ensures
        forall|k: int|
            0 <= k && k + 1 < runs(segments, max_duration, max_chars).len() ==> !fits(
                (#[trigger] runs(segments, max_duration, max_chars)[k]).push(
                    runs(segments, max_duration, max_chars)[k + 1].first(),
                ),
                max_duration,
                max_chars,
            ),
    decreases segments.len(),
{
    if segments.len() > 0 {
        lemma_long_runs_fit(segments.drop_last(), max_duration, max_chars);
        lemma_runs_are_maximal(segments.drop_last(), max_duration, max_chars);
        lemma_runs_nonempty(segments.drop_last(), max_duration, max_chars);
        let before = runs(segments.drop_last(), max_duration, max_chars);
        let after = runs(segments, max_duration, max_chars);
        assert forall|k: int| 0 <= k && k + 1 < after.len() implies !fits(
            (#[trigger] after[k]).push(after[k + 1].first()),
            max_duration,
            max_chars,
        ) by {
            assert(after[k] == before[k]);
            if k + 1 < before.len() {
                assert(after[k + 1].first() == before[k + 1].first());
            }
        }
    }
}

/// Joining is associative as long as the middle text is not empty.
pub proof fn lemma_join_two_associative(a: Seq<char>, b: Seq<char>, c: Seq<char>)
    requires
        b.len() > 0,
    ensures
        join_two(join_two(a, b), c) == join_two(a, join_two(b, c)),
{
    assert(join_two(join_two(a, b), c) =~= join_two(a, join_two(b, c)));
}

/// Merging neither adds, loses nor reorders text: as long as no segment is
/// empty, the chunk texts joined by single spaces read exactly as the
/// segment texts joined by single spaces, and no chunk is empty.
pub proof fn lemma_text_preserved(segments: Seq<Span>, max_duration: int, max_chars: int)
    requires
        all_have_text(segments),
    ensures
        joined(texts(merged(segments, max_duration, max_chars))) == joined(texts(segments)),
        all_have_text(merged(segments, max_duration, max_chars)),
    decreases segments.len(),
{
    let chunks = merged(segments, max_duration, max_chars);
    if segments.len() == 0 {
        assert(texts(chunks) =~= texts(segments));
    } else {
        let shorter = segments.drop_last();
        let segment = segments.last();
        let before = runs(shorter, max_duration, max_chars);
        let earlier = merged(shorter, max_duration, max_chars);
        lemma_text_preserved(shorter, max_duration, max_chars);
        lemma_runs_nonempty(shorter, max_duration, max_chars);
        assert(texts(segments).drop_last() =~= texts(shorter));
        if before.len() > 0 && fits(before.last().push(segment), max_duration, max_chars) {
            let grown = before.last().push(segment);
            lemma_chunk_of_push(before.last(), segment);
            lemma_chunks_of_push(before.drop_last(), grown);
            assert(chunks_of(before.drop_last()) =~= earlier.drop_last());
            assert(chunks == earlier.drop_last().push(chunk_of(grown)));
            assert(texts(chunks).drop_last() =~= texts(earlier).drop_last());
            assert(texts(earlier).last() == earlier.last().text);
            lemma_join_two_associative(
                joined(texts(earlier).drop_last()),
                earlier.last().text,
                segment.text,
            );
        } else {
            lemma_single_segment(segment, max_duration, max_chars);
            lemma_chunks_of_push(before, seq![segment]);
            assert(chunks == earlier.push(segment));
            assert(texts(chunks).drop_last() =~= texts(earlier));
        }
    }
}

/// A run of segments with clean texts forms a chunk with a clean text.
pub proof fn lemma_chunk_of_clean(run: Seq<Span>)
    requires
        run.len() > 0,
        all_clean(run),
    ensures
        is_clean(chunk_of(run).text),
    decreases run.len(),
{
    let shorter = run.drop_last();
    assert(texts(run).drop_last() =~= texts(shorter));
    assert(is_clean(run.last().text));
    if shorter.len() > 0 {
        assert forall|i: int| 0 <= i < shorter.len() implies is_clean(
            (#[trigger] shorter[i]).text,
        ) by {
            assert(shorter[i] == run[i]);
        }
        lemma_chunk_of_clean(shorter);
    } else {
        assert(joined(texts(shorter)) =~= Seq::<char>::empty());
    }
    lemma_join_two_clean(joined(texts(shorter)), run.last().text);
}

/// Segments with clean texts are merged into chunks with clean texts.
pub proof fn lemma_merged_clean(segments: Seq<Span>, max_duration: int, max_chars: int)
    requires
        all_clean(segments),
    ensures
        all_clean(merged(segments, max_duration, max_chars)),
{
    let all = runs(segments, max_duration, max_chars);
    let chunks = merged(segments, max_duration, max_chars);
    assert forall|k: int| 0 <= k < chunks.len() implies is_clean((#[trigger] chunks[k]).text) by {
        lemma_run_is_stretch(segments, max_duration, max_chars, k);
        let run = all[k];
        assert forall|i: int| 0 <= i < run.len() implies is_clean((#[trigger] run[i]).text) by {
            assert(run[i] == segments[offset(all, k) + i]);
        }
        lemma_chunk_of_clean(run);
    }
}

} // verus!
