use hgrep::chunk::{aggregate_chunks, chunks_per_file, Chunk};

fn ranges(chunks: &[Chunk]) -> Vec<(u64, u64)> {
    chunks.iter().map(|c| (c.start, c.end)).collect()
}

fn matched(chunks: &[Chunk]) -> Vec<Vec<u64>> {
    chunks.iter().map(|c| c.matched_lines.clone()).collect()
}

#[test]
fn scenario_overlapping_windows_merge() {
    // A hundred-line file with matches at 10, 12 and 50: the windows around
    // 10 and 12 overlap and merge into one chunk; 50 stands alone.
    let chunks = aggregate_chunks(&vec![10, 12, 50], 3, 6, 100);
    assert_eq!(ranges(&chunks), vec![(4, 18), (44, 56)]);
    assert_eq!(matched(&chunks), vec![vec![10, 12], vec![50]]);
}

#[test]
fn empty_match_stream_gives_no_chunks() {
    let chunks = aggregate_chunks(&vec![], 3, 6, 100);
    assert!(chunks.is_empty());
}

#[test]
fn single_match_is_clipped_to_the_file() {
    let chunks = aggregate_chunks(&vec![2], 3, 6, 4);
    assert_eq!(ranges(&chunks), vec![(1, 4)]);
    assert_eq!(matched(&chunks), vec![vec![2]]);
}

#[test]
fn boundary_matches_stay_inside_the_file() {
    let chunks = aggregate_chunks(&vec![1, 100], 0, 30, 100);
    assert_eq!(ranges(&chunks), vec![(1, 31), (70, 100)]);
    for c in &chunks {
        assert!(c.start >= 1 && c.end <= 100);
    }
}

#[test]
fn zero_context_merges_only_consecutive_lines() {
    // With no context at all, 5 and 6 are consecutive and merge; 9 does not.
    let chunks = aggregate_chunks(&vec![5, 6, 9], 0, 0, 20);
    assert_eq!(ranges(&chunks), vec![(5, 6), (9, 9)]);
    assert_eq!(matched(&chunks), vec![vec![5, 6], vec![9]]);
}

#[test]
fn zero_context_keeps_a_one_line_gap_apart() {
    let chunks = aggregate_chunks(&vec![5, 7], 0, 0, 20);
    assert_eq!(ranges(&chunks), vec![(5, 5), (7, 7)]);
}

#[test]
fn touching_windows_merge() {
    // Windows [3,7] and [8,12] touch without overlapping, so they merge.
    let chunks = aggregate_chunks(&vec![5, 10], 2, 2, 100);
    assert_eq!(ranges(&chunks), vec![(3, 12)]);
    assert_eq!(matched(&chunks), vec![vec![5, 10]]);
}

#[test]
fn near_windows_merge_under_min_context() {
    // Windows [2,8] and [12,18] leave a gap of three unshown lines, which is
    // less than twice the minimal context of three, so they merge.
    let chunks = aggregate_chunks(&vec![5, 15], 3, 3, 100);
    assert_eq!(ranges(&chunks), vec![(2, 18)]);
    // A gap of twice the minimal context keeps them apart.
    let apart = aggregate_chunks(&vec![5, 18], 3, 3, 100);
    assert_eq!(ranges(&apart), vec![(2, 8), (15, 21)]);
}

#[test]
fn wider_context_never_splits_chunks() {
    // The same matches with a wider maximal context give fewer or equally
    // many chunks and cover at least the same lines.
    let ms = vec![10, 20, 30, 60];
    let narrow = aggregate_chunks(&ms, 2, 3, 100);
    let wide = aggregate_chunks(&ms, 2, 8, 100);
    assert!(wide.len() <= narrow.len());
    let covered = |cs: &[Chunk]| -> usize {
        cs.iter().map(|c| (c.end - c.start + 1) as usize).sum()
    };
    assert!(covered(&wide) >= covered(&narrow));
    // every line covered narrowly is covered widely
    for c in &narrow {
        for l in c.start..=c.end {
            assert!(wide.iter().any(|w| w.start <= l && l <= w.end));
        }
    }
}

#[test]
fn every_match_lands_in_exactly_one_chunk() {
    let ms = vec![3, 4, 9, 40, 41, 77];
    let chunks = aggregate_chunks(&ms, 3, 6, 80);
    let mut collected: Vec<u64> = Vec::new();
    for c in &chunks {
        for &m in &c.matched_lines {
            assert!(c.start <= m && m <= c.end);
        }
        collected.extend_from_slice(&c.matched_lines);
    }
    assert_eq!(collected, ms);
    for w in chunks.windows(2) {
        assert!(w[0].end < w[1].start);
    }
}

#[test]
fn chunks_per_file_clamps_the_maximal_context() {
    let a = chunks_per_file(&vec![50], 5, 2, 100);
    let b = aggregate_chunks(&vec![50], 5, 5, 100);
    assert_eq!(ranges(&a), ranges(&b));
    assert_eq!(ranges(&a), vec![(45, 55)]);
}

#[test]
fn aggregation_is_deterministic() {
    let ms = vec![10, 12, 50];
    let once = aggregate_chunks(&ms, 3, 6, 100);
    let twice = aggregate_chunks(&ms, 3, 6, 100);
    assert_eq!(ranges(&once), ranges(&twice));
    assert_eq!(matched(&once), matched(&twice));
}

#[test]
fn identical_match_lines_share_a_chunk() {
    // A multi-line match can repeat a line number; identical lines always
    // merge, even with no context at all.
    let chunks = aggregate_chunks(&vec![5, 5], 0, 0, 20);
    assert_eq!(ranges(&chunks), vec![(5, 5)]);
    assert_eq!(matched(&chunks), vec![vec![5, 5]]);
}
