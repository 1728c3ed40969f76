use g_map_se::chunking::{batch_ranges, overlap_window, plan_chunks, ChunkPlan};

fn plan(start: usize, end: usize) -> ChunkPlan {
    ChunkPlan { start, end, chunk_len: end - start }
}

#[test]
fn short_signal_is_one_chunk() {
    assert_eq!(plan_chunks(5, 8, 2), vec![plan(0, 5)]);
    assert_eq!(plan_chunks(8, 8, 2), vec![plan(0, 8)]);
    assert_eq!(plan_chunks(0, 8, 2), vec![plan(0, 0)]);
}

#[test]
fn long_signal_overlapping_chunks() {
    assert_eq!(plan_chunks(20, 8, 2), vec![plan(0, 8), plan(6, 14), plan(12, 20)]);
    assert_eq!(plan_chunks(21, 8, 2), vec![plan(0, 8), plan(6, 14), plan(12, 20), plan(18, 21)]);
    assert_eq!(plan_chunks(9, 8, 0), vec![plan(0, 8), plan(8, 9)]);
}

#[test]
fn chunks_cover_every_sample() {
    for len in 0..60usize {
        for (chunk, overlap) in [(8usize, 2usize), (8, 7), (5, 0), (1, 0), (10, 5)] {
            let chunks = plan_chunks(len, chunk, overlap);
            for p in 0..len {
                assert!(chunks.iter().any(|c| c.start <= p && p < c.end));
            }
            assert_eq!(chunks.last().unwrap().end, len);
            for pair in chunks.windows(2) {
                assert_eq!(pair[0].end - pair[1].start, overlap);
            }
        }
    }
}

#[test]
fn batches_partition_chunks() {
    assert_eq!(batch_ranges(0, 4), vec![]);
    assert_eq!(batch_ranges(3, 4), vec![(0, 3)]);
    assert_eq!(batch_ranges(9, 4), vec![(0, 4), (4, 8), (8, 9)]);
    assert_eq!(batch_ranges(8, 4), vec![(0, 4), (4, 8)]);
}

#[test]
fn window_without_overlap_is_flat() {
    let w = overlap_window(4, 0, true, true);
    assert_eq!(w.numerators, vec![1, 1, 1, 1]);
    assert_eq!(w.denominator, 1);
}

#[test]
fn window_fades() {
    let w = overlap_window(6, 2, true, true);
    assert_eq!(w.denominator, 3);
    assert_eq!(w.numerators, vec![1, 2, 3, 3, 2, 1]);
    let w = overlap_window(6, 2, true, false);
    assert_eq!(w.numerators, vec![1, 2, 3, 3, 3, 3]);
    let w = overlap_window(6, 2, false, true);
    assert_eq!(w.numerators, vec![3, 3, 3, 3, 2, 1]);
    let w = overlap_window(3, 5, true, true);
    assert_eq!(w.denominator, 4);
    assert_eq!(w.numerators, vec![3, 2, 1]);
}

#[test]
fn window_matches_float_formula() {
    for (len, overlap, fi, fo) in [(10usize, 3usize, true, true), (4, 3, true, true), (7, 2, false, true)] {
        let w = overlap_window(len, overlap, fi, fo);
        let mut expected = vec![1.0f32; len];
        let f = overlap.min(len);
        if fi {
            for i in 0..f {
                expected[i] = (i + 1) as f32 / (f + 1) as f32;
            }
        }
        if fo {
            for i in 0..f {
                expected[len - f + i] = (f - i) as f32 / (f + 1) as f32;
            }
        }
        let got: Vec<f32> =
            w.numerators.iter().map(|n| *n as f32 / w.denominator as f32).collect();
        assert_eq!(got, expected);
    }
}

#[test]
fn crossfade_weights_sum_to_one() {
    let len = 40;
    let (chunk, overlap) = (10, 4);
    let chunks = plan_chunks(len, chunk, overlap);
    let mut total = vec![0usize; len];
    for c in &chunks {
        let w = overlap_window(c.chunk_len, overlap, c.start > 0, c.end < len);
        assert_eq!(w.denominator, overlap + 1);
        for i in 0..c.chunk_len {
            total[c.start + i] += w.numerators[i];
        }
    }
    assert!(total.iter().all(|t| *t == overlap + 1));
}

#[test]
fn crossfade_breaks_when_overlap_exceeds_half_chunk() {
    // chunk 10, overlap 6: a middle chunk fades out over part of its fade-in
    let len = 30;
    let chunks = plan_chunks(len, 10, 6);
    let mut total = vec![0usize; len];
    for c in &chunks {
        let w = overlap_window(c.chunk_len, 6, c.start > 0, c.end < len);
        for i in 0..c.chunk_len {
            total[c.start + i] += w.numerators[i];
        }
    }
    assert!(total.iter().any(|t| *t != 7));
    assert!(total.iter().all(|t| *t > 0));
}
