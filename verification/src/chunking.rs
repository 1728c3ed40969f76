//! Cutting a long signal into overlapping model-sized chunks, grouping the
//! chunks into batches, and the cross-fade windows that blend them back.

use vstd::prelude::*;

verus! {

/// One chunk of the input: samples `start..end`, `chunk_len` of them.
#[derive(Debug, Clone, Copy, PartialEq, Eq, Structural)]
pub struct ChunkPlan {
    pub start: usize,
    pub end: usize,
    pub chunk_len: usize,
}

pub open spec fn min(a: int, b: int) -> int {
    if a <= b {
        a
    } else {
        b
    }
}

/// The chunk that begins at `start`: at most `chunk_size` samples, cut at
/// the end of the signal.
pub open spec fn chunk_from(start: int, len: int, chunk_size: int) -> ChunkPlan {
    let end = min(start + chunk_size, len);
    ChunkPlan { start: start as usize, end: end as usize, chunk_len: (end - start) as usize }
}

/// The chunk plan of a signal of `len` samples: the first chunk starts at
/// 0, each next one `chunk_size - overlap_size` samples later, every chunk
/// is as long as `chunk_size` allows, and the plan stops with the first
/// chunk that reaches the end of the signal. A signal no longer than one
/// chunk is one chunk.
pub open spec fn is_chunk_plan(
    chunks: Seq<ChunkPlan>,
    len: int,
    chunk_size: int,
    overlap_size: int,
) -> bool {
    &&& chunks.len() >= 1
    &&& chunks[0].start == 0
    &&& forall|i: int|
        0 <= i < chunks.len() ==> #[trigger] chunks[i] == chunk_from(
            chunks[i].start as int,
            len,
            chunk_size,
        )
    &&& forall|i: int|
        0 <= i < chunks.len() - 1 ==> #[trigger] chunks[i + 1].start == chunks[i].start + (
        chunk_size - overlap_size)
    &&& forall|i: int| 0 <= i < chunks.len() - 1 ==> #[trigger] chunks[i].end < len
    &&& chunks.last().end == len
}

/// Cuts `len` samples into overlapping chunks of at most `chunk_size`
/// samples, consecutive chunks sharing `overlap_size` samples.
pub fn plan_chunks(len: usize, chunk_size: usize, overlap_size: usize) -> (chunks: Vec<ChunkPlan>)
    requires
        0 < chunk_size,
        overlap_size < chunk_size,
    ensures
        is_chunk_plan(chunks@, len as int, chunk_size as int, overlap_size as int),
        len <= chunk_size ==> chunks@ == seq![ChunkPlan { start: 0, end: len, chunk_len: len }],
        chunks@.len() >= 1,
        chunks@[0].start == 0,
        chunks@.last().end == len,
        forall|i: int|
            0 <= i < chunks@.len() ==> #[trigger] chunks@[i].chunk_len == chunks@[i].end
                - chunks@[i].start && chunks@[i].end <= len && chunks@[i].chunk_len <= chunk_size,
        len > 0 ==> forall|i: int| 0 <= i < chunks@.len() ==> #[trigger] chunks@[i].start < chunks@[i].end,
        forall|i: int|
            0 <= i < chunks@.len() - 1 ==> #[trigger] chunks@[i].chunk_len == chunk_size
                && chunks@[i + 1].start == chunks@[i].start + chunk_size - overlap_size,
{
    if len <= chunk_size {
        let mut one: Vec<ChunkPlan> = Vec::new();
        one.push(ChunkPlan { start: 0, end: len, chunk_len: len });
        return one;
    }
    let hop = chunk_size - overlap_size;
    let mut chunks: Vec<ChunkPlan> = Vec::new();
    let mut start: usize = 0;
    loop
        invariant_except_break
            start < len,
            chunks.len() == 0 ==> start == 0,
            chunks.len() > 0 ==> start == chunks@.last().start + hop,
            forall|i: int| 0 <= i < chunks.len() ==> #[trigger] chunks@[i].end < len,
        invariant
            hop == chunk_size - overlap_size,
            0 < hop <= chunk_size,
            chunk_size < len,
            chunks.len() > 0 ==> chunks@[0].start == 0,
            forall|i: int|
                0 <= i < chunks.len() ==> #[trigger] chunks@[i] == chunk_from(
                    chunks@[i].start as int,
                    len as int,
                    chunk_size as int,
                ),
            forall|i: int|
                0 <= i < chunks.len() - 1 ==> #[trigger] chunks@[i + 1].start == chunks@[i].start
                    + hop,
        ensures
            chunks.len() >= 1,
            chunks@.last().end == len,
            forall|i: int| 0 <= i < chunks.len() - 1 ==> #[trigger] chunks@[i].end < len,
        decreases len - start,
    {
        let end = if len - start <= chunk_size {
            len
        } else {
            start + chunk_size
        };
        let ghost prev = chunks@;
        chunks.push(ChunkPlan { start, end, chunk_len: end - start });
        assert(chunks@[chunks.len() - 1] == chunk_from(start as int, len as int, chunk_size as int));
        if end == len {
            break ;
        }
        start = start + hop;
    }
    proof {
        assert forall|i: int| 0 <= i < chunks@.len() implies #[trigger] chunks@[i].chunk_len
            == chunks@[i].end - chunks@[i].start && chunks@[i].end <= len && chunks@[i].chunk_len
            <= chunk_size && chunks@[i].start < chunks@[i].end && (i < chunks@.len() - 1
            ==> chunks@[i].chunk_len == chunk_size) by {
            lemma_plan_chunk_bounds(
                chunks@,
                len as int,
                chunk_size as int,
                overlap_size as int,
                i,
            );
        }
        assert forall|i: int| 0 <= i < chunks@.len() implies #[trigger] chunks@[i].start
            < chunks@[i].end by {
            lemma_plan_chunk_bounds(
                chunks@,
                len as int,
                chunk_size as int,
                overlap_size as int,
                i,
            );
        }
    }
    chunks
}

proof fn lemma_covers_from(chunks: Seq<ChunkPlan>, len: int, chunk_size: int, overlap_size: int, k: int, p: int)
    requires
        0 <= overlap_size < chunk_size,
        is_chunk_plan(chunks, len, chunk_size, overlap_size),
        0 <= k < chunks.len(),
        chunks[k].start <= p < len,
    ensures
        exists|i: int| 0 <= i < chunks.len() && #[trigger] chunks[i].start <= p < chunks[i].end,
    decreases chunks.len() - k,
{
    let c = chunks[k];
    assert(c == chunk_from(c.start as int, len, chunk_size));
    if p < c.end {
        assert(0 <= k < chunks.len() && chunks[k].start <= p < chunks[k].end);
    } else {
        assert(k < chunks.len() - 1);
        assert(chunks[k].end < len);
        assert(chunks[k + 1].start == chunks[k].start + (chunk_size - overlap_size));
        lemma_covers_from(chunks, len, chunk_size, overlap_size, k + 1, p);
    }
}

/// Every sample of the signal lies in some chunk of its chunk plan, so each
/// output sample receives a contribution when the chunks are blended back.
pub proof fn lemma_plan_covers_signal(
    chunks: Seq<ChunkPlan>,
    len: int,
    chunk_size: int,
    overlap_size: int,
    p: int,
)
    requires
        0 <= overlap_size < chunk_size,
        is_chunk_plan(chunks, len, chunk_size, overlap_size),
        0 <= p < len,
    ensures
        exists|i: int| 0 <= i < chunks.len() && #[trigger] chunks[i].start <= p < chunks[i].end,
{
    lemma_covers_from(chunks, len, chunk_size, overlap_size, 0, p);
}

/// Every chunk of a plan of a non-empty signal lies inside the signal, is
/// non-empty and no longer than `chunk_size`, and consecutive chunks share
/// exactly `overlap_size` samples.
pub proof fn lemma_plan_chunk_bounds(
    chunks: Seq<ChunkPlan>,
    len: int,
    chunk_size: int,
    overlap_size: int,
    i: int,
)
    requires
        0 <= overlap_size < chunk_size,
        0 < len,
        is_chunk_plan(chunks, len, chunk_size, overlap_size),
        0 <= i < chunks.len(),
    ensures
        0 <= chunks[i].start < chunks[i].end <= len,
        chunks[i].chunk_len == chunks[i].end - chunks[i].start,
        chunks[i].chunk_len <= chunk_size,
        i + 1 < chunks.len() ==> chunks[i].chunk_len == chunk_size,
        i + 1 < chunks.len() ==> chunks[i].end - chunks[i + 1].start == overlap_size,
    decreases i,
{
    assert(chunks[i] == chunk_from(chunks[i].start as int, len, chunk_size));
    if i > 0 {
        lemma_plan_chunk_bounds(chunks, len, chunk_size, overlap_size, i - 1);
        assert(chunks[i - 1] == chunk_from(chunks[i - 1].start as int, len, chunk_size));
        assert(chunks[i - 1].end < len);
        assert(chunks[i].start == chunks[i - 1].start + (chunk_size - overlap_size));
    }
    if i + 1 < chunks.len() {
        assert(chunks[i].end < len);
        assert(chunks[i + 1].start == chunks[i].start + (chunk_size - overlap_size));
    }
}

/// Groups of consecutive chunks that go through the model together, as
/// index ranges `start..end` into the chunk plan.
pub open spec fn is_batching(ranges: Seq<(usize, usize)>, count: int, batch_size: int) -> bool {
    &&& count == 0 ==> ranges.len() == 0
    &&& count > 0 ==> ranges.len() >= 1 && ranges[0].0 == 0 && ranges.last().1 == count
    &&& forall|i: int|
        0 <= i < ranges.len() ==> (#[trigger] ranges[i]).1 == min(ranges[i].0 + batch_size, count)
            && ranges[i].0 < ranges[i].1
    &&& forall|i: int| 0 <= i < ranges.len() - 1 ==> #[trigger] ranges[i + 1].0 == ranges[i].1
}

/// Splits `count` chunks into batches of `batch_size`; the last batch may be
/// shorter.
pub fn batch_ranges(count: usize, batch_size: usize) -> (ranges: Vec<(usize, usize)>)
    requires
        batch_size > 0,
    ensures
        is_batching(ranges@, count as int, batch_size as int),
        count > 0 ==> ranges@.len() >= 1 && ranges@[0].0 == 0 && ranges@.last().1 == count,
        count == 0 ==> ranges@.len() == 0,
        forall|i: int|
            0 <= i < ranges@.len() ==> 0 < (#[trigger] ranges@[i]).1 - ranges@[i].0 <= batch_size
                && ranges@[i].1 <= count,
        forall|i: int|
            0 <= i < ranges@.len() - 1 ==> #[trigger] ranges@[i].1 - ranges@[i].0 == batch_size
                && ranges@[i + 1].0 == ranges@[i].1,
{
    let mut ranges: Vec<(usize, usize)> = Vec::new();
    let mut start: usize = 0;
    while start < count
        invariant
            batch_size > 0,
            start <= count,
            ranges.len() == 0 ==> start == 0,
            ranges.len() > 0 ==> ranges@[0].0 == 0 && ranges@.last().1 == start,
            forall|i: int|
                0 <= i < ranges.len() ==> (#[trigger] ranges@[i]).1 == min(
                    ranges@[i].0 + batch_size,
                    count as int,
                ) && ranges@[i].0 < ranges@[i].1,
            forall|i: int|
                0 <= i < ranges.len() - 1 ==> #[trigger] ranges@[i + 1].0 == ranges@[i].1,
        decreases count - start,
    {
        let end = if count - start <= batch_size {
            count
        } else {
            start + batch_size
        };
        ranges.push((start, end));
        start = end;
    }
    proof {
        assert forall|i: int| 0 <= i < ranges@.len() - 1 implies #[trigger] ranges@[i].1
            - ranges@[i].0 == batch_size && ranges@[i + 1].0 == ranges@[i].1 by {
            assert(ranges@[i + 1].0 < ranges@[i + 1].1);
            assert(ranges@[i + 1].1 <= count);
        }
    }
    ranges
}

/// Cross-fade weights of a chunk, as fractions `numerators[i] / denominator`.
#[derive(Debug, PartialEq, Eq)]
pub struct WindowWeights {
    pub numerators: Vec<usize>,
    pub denominator: usize,
}

/// Number of samples that fade in or out.
pub open spec fn fade_length(chunk_len: int, overlap_size: int) -> int {
    min(overlap_size, chunk_len)
}

/// The weight numerator of sample `i` of a chunk of `chunk_len` samples,
/// over `fade_length + 1`: the last samples fade out, the first fade in
/// (fading out wins where both apply), and the rest keep full weight.
pub open spec fn window_numerator(
    i: int,
    chunk_len: int,
    overlap_size: int,
    fade_in: bool,
    fade_out: bool,
) -> int {
    let f = fade_length(chunk_len, overlap_size);
    if fade_out && i >= chunk_len - f {
        chunk_len - i
    } else if fade_in && i < f {
        i + 1
    } else {
        f + 1
    }
}

/// The blending window of a chunk: with `fade_in`, the first
/// `min(overlap_size, chunk_len)` samples ramp up as 1/(f+1), 2/(f+1), ...;
/// with `fade_out`, the last ones ramp down to 1/(f+1); all other samples
/// weigh 1. Every weight lies in (0, 1].
pub fn overlap_window(chunk_len: usize, overlap_size: usize, fade_in: bool, fade_out: bool) -> (w:
    WindowWeights)
    requires
        chunk_len < usize::MAX,
    ensures
        w.denominator == fade_length(chunk_len as int, overlap_size as int) + 1,
        w.numerators.len() == chunk_len,
        forall|i: int|
            0 <= i < chunk_len ==> #[trigger] w.numerators@[i] == window_numerator(
                i,
                chunk_len as int,
                overlap_size as int,
                fade_in,
                fade_out,
            ),
        forall|i: int|
            0 <= i < chunk_len ==> 0 < #[trigger] w.numerators@[i] <= w.denominator,
        w.denominator == (if overlap_size < chunk_len {
            overlap_size
        } else {
            chunk_len
        }) + 1,
        forall|i: int|
            0 <= i < chunk_len && fade_out && i + w.denominator - 1 >= chunk_len ==> #[trigger] w.numerators@[i]
                == chunk_len - i,
        forall|i: int|
            0 <= i < chunk_len && fade_in && i + 1 < w.denominator && !(fade_out && i + w.denominator
                - 1 >= chunk_len) ==> #[trigger] w.numerators@[i] == i + 1,
        forall|i: int|
            0 <= i < chunk_len && !(fade_in && i + 1 < w.denominator) && !(fade_out && i
                + w.denominator - 1 >= chunk_len) ==> #[trigger] w.numerators@[i] == w.denominator,
{
    let fade_len = if overlap_size < chunk_len {
        overlap_size
    } else {
        chunk_len
    };
    let full = fade_len + 1;
    let mut numerators: Vec<usize> = Vec::new();
    let mut k: usize = 0;
    while k < chunk_len
        invariant
            k <= chunk_len,
            numerators.len() == k,
            forall|i: int| 0 <= i < k ==> #[trigger] numerators@[i] == full,
        decreases chunk_len - k,
    {
        numerators.push(full);
        k = k + 1;
    }
    if overlap_size == 0 {
        return WindowWeights { numerators, denominator: full };
    }
    if fade_in {
        let mut index: usize = 0;
        while index < fade_len
            invariant
                fade_len <= chunk_len,
                numerators.len() == chunk_len,
                index <= fade_len,
                forall|i: int| 0 <= i < index ==> #[trigger] numerators@[i] == i + 1,
                forall|i: int| index <= i < chunk_len ==> #[trigger] numerators@[i] == full,
            decreases fade_len - index,
        {
            numerators.set(index, index + 1);
            index = index + 1;
        }
    }
    let ghost faded = numerators@;
    if fade_out {
        let mut index: usize = 0;
        while index < fade_len
            invariant
                fade_len <= chunk_len,
                numerators.len() == chunk_len,
                index <= fade_len,
                forall|i: int|
                    chunk_len - fade_len <= i < chunk_len - fade_len + index
                        ==> #[trigger] numerators@[i] == chunk_len - i,
                forall|i: int|
                    0 <= i < chunk_len - fade_len || chunk_len - fade_len + index <= i < chunk_len
                        ==> #[trigger] numerators@[i] == faded[i],
            decreases fade_len - index,
        {
            numerators.set(chunk_len - fade_len + index, fade_len - index);
            index = index + 1;
        }
    }
    WindowWeights { numerators, denominator: full }
}

/// Where two consecutive chunks of a plan overlap, their blending windows
/// add up to full weight: the earlier chunk fades out exactly as the later
/// one fades in. This holds when the overlap is at most half a chunk, or
/// the later chunk is the last one (a chunk shorter than two overlaps
/// fades out over part of its fade-in).
pub proof fn lemma_crossfade_complementary(
    chunks: Seq<ChunkPlan>,
    len: int,
    chunk_size: int,
    overlap_size: int,
    i: int,
    p: int,
)
    requires
        0 < overlap_size < chunk_size,
        is_chunk_plan(chunks, len, chunk_size, overlap_size),
        0 <= i < chunks.len() - 1,
        2 * overlap_size <= chunk_size || i + 2 == chunks.len(),
        chunks[i + 1].start <= p < chunks[i].end,
    ensures
        ({
            let a = chunks[i];
            let b = chunks[i + 1];
            &&& fade_length(a.chunk_len as int, overlap_size) == overlap_size
            &&& fade_length(b.chunk_len as int, overlap_size) == overlap_size
            &&& window_numerator(
                p - a.start,
                a.chunk_len as int,
                overlap_size,
                a.start > 0,
                a.end < len,
            ) + window_numerator(p - b.start, b.chunk_len as int, overlap_size, b.start > 0, b.end < len)
                == overlap_size + 1
        }),
{
    lemma_plan_chunk_bounds(chunks, len, chunk_size, overlap_size, i);
    lemma_plan_chunk_bounds(chunks, len, chunk_size, overlap_size, i + 1);
    let a = chunks[i];
    let b = chunks[i + 1];
    assert(a == chunk_from(a.start as int, len, chunk_size));
    assert(b == chunk_from(b.start as int, len, chunk_size));
    assert(a.end < len);
    assert(b.start == a.start + (chunk_size - overlap_size));
    if i + 2 < chunks.len() {
        assert(b.end < len);
    } else {
        assert(b.end == len);
    }
}

/// Every output sample gets a positive blending weight from some chunk, so
/// normalising the blended signal by its total weight never divides by
/// nothing.
pub proof fn lemma_every_sample_weighted(
    chunks: Seq<ChunkPlan>,
    len: int,
    chunk_size: int,
    overlap_size: int,
    p: int,
)
    requires
        0 <= overlap_size < chunk_size,
        is_chunk_plan(chunks, len, chunk_size, overlap_size),
        0 <= p < len,
    ensures
        exists|i: int|
            0 <= i < chunks.len() && #[trigger] chunks[i].start <= p < chunks[i].end && window_numerator(
                p - chunks[i].start,
                chunks[i].chunk_len as int,
                overlap_size,
                chunks[i].start > 0,
                chunks[i].end < len,
            ) > 0,
{
    lemma_plan_covers_signal(chunks, len, chunk_size, overlap_size, p);
    let i = choose|i: int| 0 <= i < chunks.len() && #[trigger] chunks[i].start <= p < chunks[i].end;
    lemma_plan_chunk_bounds(chunks, len, chunk_size, overlap_size, i);
    assert(window_numerator(
        p - chunks[i].start,
        chunks[i].chunk_len as int,
        overlap_size,
        chunks[i].start > 0,
        chunks[i].end < len,
    ) > 0);
}

} // verus!
