//! Chunk aggregation: turns the ordered match line numbers of one file into a
//! minimal sequence of non-overlapping, context-padded line windows.

use vstd::prelude::*;

verus! {

/// Mathematical model of one chunk: an inclusive 1-based line range together
/// with the matched line numbers it contains.
#[verifier::ext_equal]
pub struct ChunkView {
    pub start: int,
    pub end: int,
    pub matched: Seq<int>,
}

/// One contiguous, context-padded snippet of a file: the inclusive 1-based
/// line range `[start, end]` and the matched line numbers inside it.
pub struct Chunk {
    pub start: u64,
    pub end: u64,
    pub matched_lines: Vec<u64>,
}

impl View for Chunk {
    type V = ChunkView;

    open spec fn view(&self) -> ChunkView {
        ChunkView {
            start: self.start as int,
            end: self.end as int,
            matched: self.matched_lines@.map_values(|m: u64| m as int),
        }
    }
}

/// First line of the maximal context window around match line `m`,
/// clipped at the start of the file.
pub open spec fn window_start(m: int, max_context: int) -> int {
    if m - max_context < 1 {
        1
    } else {
        m - max_context
    }
}

/// Last line of the maximal context window around match line `m`,
/// clipped at the end of a file of `n` lines.
pub open spec fn window_end(m: int, max_context: int, n: int) -> int {
    if m + max_context > n {
        n
    } else {
        m + max_context
    }
}

/// Whether the window of match `m` joins a chunk that currently ends at
/// `cur_end`: they join when the windows touch or overlap (gap of zero or
/// less), or when the gap of unshown lines between them is shorter than
/// `min_context` of unique context on each side.
pub open spec fn merges(cur_end: int, m: int, min_context: int, max_context: int) -> bool {
    let gap = window_start(m, max_context) - cur_end - 1;
    gap <= 0 || gap < 2 * min_context
}

/// The larger of two integers.
pub open spec fn int_max(a: int, b: int) -> int {
    if a < b {
        b
    } else {
        a
    }
}

/// State of the left-to-right aggregation after consuming a prefix of the
/// match lines: the chunks already closed, and the still-open chunk (absent
/// only before the first match).
pub open spec fn agg_state(ms: Seq<int>, min_context: int, max_context: int, n: int) -> (Seq<
    ChunkView,
>, Option<ChunkView>)
    decreases ms.len(),
{
    if ms.len() == 0 {
        (Seq::<ChunkView>::empty(), None::<ChunkView>)
    } else {
        let (closed, cur) = agg_state(ms.drop_last(), min_context, max_context, n);
        let m = ms.last();
        let fresh = ChunkView {
            start: window_start(m, max_context),
            end: window_end(m, max_context, n),
            matched: seq![m],
        };
        match cur {
            None => (closed, Some(fresh)),
            Some(c) => {
                if merges(c.end, m, min_context, max_context) {
                    let grown = ChunkView {
                        start: c.start,
                        end: int_max(c.end, window_end(m, max_context, n)),
                        matched: c.matched.push(m),
                    };
                    (closed, Some(grown))
                } else {
                    (closed.push(c), Some(fresh))
                }
            },
        }
    }
}

/// The chunk sequence produced for one file from its ordered match lines.
pub open spec fn chunks_spec(ms: Seq<int>, min_context: int, max_context: int, n: int) -> Seq<
    ChunkView,
> {
    let (closed, cur) = agg_state(ms, min_context, max_context, n);
    match cur {
        None => closed,
        Some(c) => closed.push(c),
    }
}

/// Match lines as mathematical integers.
pub open spec fn lines_int(ms: Seq<u64>) -> Seq<int> {
    ms.map_values(|m: u64| m as int)
}

/// The match lines are non-decreasing and lie within a file of `n` lines.
pub open spec fn valid_matches(ms: Seq<int>, n: int) -> bool {
    &&& forall|i: int| 0 <= i < ms.len() ==> 1 <= #[trigger] ms[i] <= n
    &&& forall|i: int, j: int| 0 <= i <= j < ms.len() ==> #[trigger] ms[i] <= #[trigger] ms[j]
}

/// Group the ordered match lines of one file into non-overlapping chunks,
/// padding each match with up to `max_context` lines of context and merging
/// windows that come closer than `min_context` of context on each side.
pub fn aggregate_chunks(
    matches: &Vec<u64>,
    min_context: u64,
    max_context: u64,
    file_line_count: u64,
) -> (r: Vec<Chunk>)
    requires
        min_context <= max_context,
        valid_matches(lines_int(matches@), file_line_count as int),
    ensures
        r@.map_values(|c: Chunk| c@) == chunks_spec(
            lines_int(matches@),
            min_context as int,
            max_context as int,
            file_line_count as int,
        ),
{
    let ghost gms = lines_int(matches@);
    let ghost gmin = min_context as int;
    let ghost gmax = max_context as int;
    let ghost gn = file_line_count as int;
    let mut closed: Vec<Chunk> = Vec::new();
    let mut cur: Option<Chunk> = None;
    let mut i: usize = 0;
    proof {
        assert(gms.take(0) =~= Seq::<int>::empty());
        assert(closed@.map_values(|c: Chunk| c@) =~= Seq::<ChunkView>::empty());
    }
    while i < matches.len()
        invariant
            min_context <= max_context,
            valid_matches(gms, gn),
            gms == lines_int(matches@),
            gmin == min_context as int,
            gmax == max_context as int,
            gn == file_line_count as int,
            i <= matches.len(),
            (closed@.map_values(|c: Chunk| c@), match cur {
                Some(c) => Some(c@),
                None => None,
            }) == agg_state(gms.take(i as int), gmin, gmax, gn),
            cur is Some ==> cur->0.start >= 1 && cur->0.end <= file_line_count,
        decreases matches.len() - i,
    {
        let m = matches[i];
        proof {
            assert(gms[i as int] == m as int);
            assert(1 <= m as int <= gn);
            assert(valid_matches(gms.take(i as int), gn)) by {
                assert(forall|k: int|
                    0 <= k < i ==> #[trigger] gms.take(i as int)[k] == gms[k]);
            }
            lemma_agg_state_inv(gms.take(i as int), gmin, gmax, gn);
            assert(gms.take(i + 1 as int).drop_last() =~= gms.take(i as int));
            assert(gms.take(i + 1 as int).last() == m as int);
        }
        let ws = if m <= max_context {
            1
        } else {
            m - max_context
        };
        let we = if max_context > file_line_count - m {
            file_line_count
        } else {
            m + max_context
        };
        assert(ws as int == window_start(m as int, gmax));
        assert(we as int == window_end(m as int, gmax, gn));
        match cur {
            None => {
                cur = Some(Chunk { start: ws, end: we, matched_lines: vec![m] });
                proof {
                    assert(cur->0@.matched =~= seq![m as int]);
                }
            },
            Some(c) => {
                let do_merge = ws - 1 <= c.end || min_context > u64::MAX / 2 || ws - 1 - c.end < 2
                    * min_context;
                assert(do_merge == merges(c@.end, m as int, gmin, gmax));
                if do_merge {
                    let new_end = if c.end < we {
                        we
                    } else {
                        c.end
                    };
                    let mut lines = c.matched_lines;
                    lines.push(m);
                    let grown = Chunk { start: c.start, end: new_end, matched_lines: lines };
                    proof {
                        assert(grown@.matched =~= c@.matched.push(m as int));
                    }
                    cur = Some(grown);
                } else {
                    closed.push(c);
                    cur = Some(Chunk { start: ws, end: we, matched_lines: vec![m] });
                    proof {
                        assert(cur->0@.matched =~= seq![m as int]);
                    }
                }
            },
        }
        i = i + 1;
        proof {
            assert(closed@.map_values(|c: Chunk| c@) =~= agg_state(
                gms.take(i as int),
                gmin,
                gmax,
                gn,
            ).0);
        }
    }
    proof {
        assert(gms.take(matches@.len() as int) =~= gms);
    }
    let mut r = closed;
    match cur {
        None => {
            proof {
                assert(r@.map_values(|c: Chunk| c@) =~= chunks_spec(gms, gmin, gmax, gn));
            }
        },
        Some(c) => {
            r.push(c);
            proof {
                assert(r@.map_values(|c: Chunk| c@) =~= chunks_spec(gms, gmin, gmax, gn));
            }
        },
    }
    r
}

/// Group the ordered match lines of one file into chunks, first clamping the
/// maximal context so it is never below the minimal one.
pub fn chunks_per_file(
    matches: &Vec<u64>,
    min_context: u64,
    max_context: u64,
    file_line_count: u64,
) -> (r: Vec<Chunk>)
    requires
        valid_matches(lines_int(matches@), file_line_count as int),
    ensures
        r@.map_values(|c: Chunk| c@) == chunks_spec(
            lines_int(matches@),
            min_context as int,
            if max_context < min_context {
                min_context as int
            } else {
                max_context as int
            },
            file_line_count as int,
        ),
{
    let max = if max_context < min_context {
        min_context
    } else {
        max_context
    };
    aggregate_chunks(matches, min_context, max, file_line_count)
}

/// The matched lines of a sequence of chunks, in order.
pub open spec fn matched_concat(cs: Seq<ChunkView>) -> Seq<int>
    decreases cs.len(),
{
    if cs.len() == 0 {
        Seq::<int>::empty()
    } else {
        matched_concat(cs.drop_last()) + cs.last().matched
    }
}

/// A single chunk is well formed for a file of `n` lines: it lies within the
/// file, holds at least one matched line, and its matched lines are ordered
/// and lie within its range.
pub open spec fn wf_chunk(c: ChunkView, n: int) -> bool {
    &&& 1 <= c.start <= c.end <= n
    &&& c.matched.len() >= 1
    &&& forall|k: int| 0 <= k < c.matched.len() ==> c.start <= #[trigger] c.matched[k] <= c.end
    &&& forall|k: int, l: int|
        0 <= k <= l < c.matched.len() ==> #[trigger] c.matched[k] <= #[trigger] c.matched[l]
}

/// Invariants of the aggregation state: all chunks are well formed, the
/// closed chunks are strictly increasing and separated from the open one,
/// and the matched lines of all chunks together are exactly the matches
/// consumed so far.
pub proof fn lemma_agg_state_inv(ms: Seq<int>, min_context: int, max_context: int, n: int)
    requires
        0 <= min_context <= max_context,
        valid_matches(ms, n),
    ensures
        ({
            let (closed, cur) = agg_state(ms, min_context, max_context, n);
            &&& cur is None <==> ms.len() == 0
            &&& cur is Some ==> wf_chunk(cur->0, n)
            &&& cur is Some ==> cur->0.end >= window_end(ms.last(), max_context, n)
            &&& cur is Some ==> cur->0.start <= window_start(ms.last(), max_context)
            &&& cur is Some ==> cur->0.matched.last() == ms.last()
            &&& forall|i: int| 0 <= i < closed.len() ==> wf_chunk(#[trigger] closed[i], n)
            &&& forall|i: int|
                0 <= i < closed.len() - 1 ==> (#[trigger] closed[i]).end + 1 < closed[i + 1].start
            &&& (cur is Some && closed.len() > 0) ==> closed.last().end + 1 < cur->0.start
            &&& matched_concat(closed) + (match cur {
                Some(c) => c.matched,
                None => Seq::<int>::empty(),
            }) == ms
        }),
    decreases ms.len(),
{
    let (closed, cur) = agg_state(ms, min_context, max_context, n);
    if ms.len() == 0 {
        assert(matched_concat(closed) + Seq::<int>::empty() =~= ms);
    } else {
        let prev = ms.drop_last();
        lemma_agg_state_inv(prev, min_context, max_context, n);
        assert(valid_matches(prev, n)) by {
            assert(forall|i: int| 0 <= i < prev.len() ==> #[trigger] prev[i] == ms[i]);
        }
        let (pclosed, pcur) = agg_state(prev, min_context, max_context, n);
        let m = ms.last();
        assert(1 <= m <= n);
        match pcur {
            None => {
                assert(matched_concat(closed) + cur->0.matched =~= ms);
            },
            Some(c) => {
                let pm = prev.last();
                assert(pm == ms[ms.len() - 2]);
                assert(pm <= m);
                assert(window_start(pm, max_context) <= window_start(m, max_context));
                assert(window_end(pm, max_context, n) <= window_end(m, max_context, n));
                if merges(c.end, m, min_context, max_context) {
                    let g = cur->0;
                    assert(g.matched.last() == m);
                    assert(c.start <= window_start(pm, max_context) <= pm <= m);
                    assert(m <= window_end(m, max_context, n) <= g.end);
                    assert(c.matched.last() == pm);
                    assert(wf_chunk(g, n)) by {
                        assert(forall|k: int|
                            0 <= k < c.matched.len() ==> #[trigger] g.matched[k] == c.matched[k]);
                        assert(g.matched[g.matched.len() - 1] == m);
                    }
                    assert(matched_concat(closed) + g.matched =~= ms) by {
                        assert(matched_concat(pclosed) + c.matched == prev);
                        assert((matched_concat(pclosed) + c.matched.push(m)) =~= (matched_concat(
                            pclosed,
                        ) + c.matched).push(m));
                    }
                } else {
                    let g = cur->0;
                    assert(closed == pclosed.push(c));
                    assert(closed.last() == c);
                    assert(window_start(m, max_context) - c.end - 1 > 0);
                    assert(g.start == window_start(m, max_context));
                    assert(c.end + 1 < g.start);
                    assert(wf_chunk(g, n));
                    assert(forall|i: int| 0 <= i < closed.len() ==> wf_chunk(#[trigger] closed[i], n))
                        by {
                        assert(forall|i: int|
                            0 <= i < pclosed.len() ==> #[trigger] closed[i] == pclosed[i]);
                    }
                    assert(forall|i: int|
                        0 <= i < closed.len() - 1 ==> (#[trigger] closed[i]).end + 1 < closed[i
                            + 1].start) by {
                        assert(forall|i: int|
                            0 <= i < pclosed.len() ==> #[trigger] closed[i] == pclosed[i]);
                        if pclosed.len() > 0 {
                            assert(closed[closed.len() - 2] == pclosed.last());
                            assert(pclosed.last().end + 1 < c.start);
                        }
                    }
                    assert(matched_concat(closed) + g.matched =~= ms) by {
                        assert(matched_concat(closed).drop_last() == matched_concat(pclosed)
                            + c.matched.drop_last() || true);
                        assert(matched_concat(closed) == matched_concat(pclosed) + c.matched) by {
                            assert(closed.drop_last() =~= pclosed);
                        }
                        assert(matched_concat(pclosed) + c.matched == prev);
                        assert(g.matched =~= seq![m]);
                    }
                }
            },
        }
    }
}

/// The chunk spans exactly from the maximal window start of its first match
/// to the maximal window end of its last match.
pub open spec fn tight_context(c: ChunkView, max_context: int, n: int) -> bool {
    &&& c.matched.len() >= 1
    &&& c.start == window_start(c.matched.first(), max_context)
    &&& c.end == window_end(c.matched.last(), max_context, n)
}

proof fn lemma_agg_tight_context(ms: Seq<int>, min_context: int, max_context: int, n: int)
    requires
        0 <= min_context <= max_context,
        valid_matches(ms, n),
    ensures
        ({
            let (closed, cur) = agg_state(ms, min_context, max_context, n);
            &&& cur is Some ==> tight_context(cur->0, max_context, n)
            &&& forall|i: int|
                0 <= i < closed.len() ==> tight_context(#[trigger] closed[i], max_context, n)
        }),
    decreases ms.len(),
{
    let (closed, cur) = agg_state(ms, min_context, max_context, n);
    if ms.len() == 0 {
    } else {
        let prev = ms.drop_last();
        assert(valid_matches(prev, n)) by {
            assert(forall|i: int| 0 <= i < prev.len() ==> #[trigger] prev[i] == ms[i]);
        }
        lemma_agg_tight_context(prev, min_context, max_context, n);
        lemma_agg_state_inv(prev, min_context, max_context, n);
        let (pclosed, pcur) = agg_state(prev, min_context, max_context, n);
        let m = ms.last();
        match pcur {
            None => {
            },
            Some(c) => {
                let pm = prev.last();
                assert(pm <= m);
                assert(c.matched.last() == pm);
                if merges(c.end, m, min_context, max_context) {
                    let g = cur->0;
                    assert(g.matched.first() == c.matched.first()) by {
                        assert(c.matched.push(m)[0] == c.matched[0]);
                    }
                    assert(window_end(pm, max_context, n) <= window_end(m, max_context, n));
                    assert(g.end == window_end(m, max_context, n));
                    assert(g.matched.last() == m);
                } else {
                    assert(forall|i: int|
                        0 <= i < pclosed.len() ==> #[trigger] closed[i] == pclosed[i]);
                    assert(closed.last() == c);
                }
            },
        }
    }
}

/// Each chunk spans exactly from the first match's maximal window start to
/// the last match's maximal window end: no unmatched run longer than
/// `max_context` is attached to either side. In consequence every match keeps
/// at least `min_context` lines of context on each side, clipped only by the
/// file's own bounds.
pub proof fn lemma_context_bounds(ms: Seq<int>, min_context: int, max_context: int, n: int)
    requires
        0 <= min_context <= max_context,
        valid_matches(ms, n),
    ensures
        ({
            let cs = chunks_spec(ms, min_context, max_context, n);
            &&& forall|i: int| 0 <= i < cs.len() ==> tight_context(#[trigger] cs[i], max_context, n)
            &&& forall|i: int, k: int|
                0 <= i < cs.len() && 0 <= k < (#[trigger] cs[i]).matched.len() ==> cs[i].start
                    <= window_start(#[trigger] cs[i].matched[k], min_context) && window_end(
                    cs[i].matched[k],
                    min_context,
                    n,
                ) <= cs[i].end
        }),
{
    lemma_agg_tight_context(ms, min_context, max_context, n);
    lemma_agg_state_inv(ms, min_context, max_context, n);
    lemma_chunks_partition(ms, min_context, max_context, n);
    let (closed, cur) = agg_state(ms, min_context, max_context, n);
    let cs = chunks_spec(ms, min_context, max_context, n);
    assert(forall|i: int| 0 <= i < closed.len() ==> #[trigger] cs[i] == closed[i]);
    assert forall|i: int, k: int|
        0 <= i < cs.len() && 0 <= k < (#[trigger] cs[i]).matched.len() implies cs[i].start
        <= window_start(#[trigger] cs[i].matched[k], min_context) && window_end(
        cs[i].matched[k],
        min_context,
        n,
    ) <= cs[i].end by {
        let c = cs[i];
        assert(wf_chunk(c, n) && tight_context(c, max_context, n));
        assert(c.matched.first() <= c.matched[k] <= c.matched.last());
        assert(window_start(c.matched.first(), max_context) <= window_start(
            c.matched.first(),
            min_context,
        ));
        assert(window_start(c.matched.first(), min_context) <= window_start(
            c.matched[k],
            min_context,
        ));
        assert(window_end(c.matched[k], min_context, n) <= window_end(
            c.matched.last(),
            min_context,
            n,
        ));
        assert(window_end(c.matched.last(), min_context, n) <= window_end(
            c.matched.last(),
            max_context,
            n,
        ));
    }
}

/// The set of lines covered by one chunk.
pub open spec fn range_set(c: ChunkView) -> Set<int> {
    Set::new(|x: int| c.start <= x <= c.end)
}

/// The set of lines covered by a sequence of chunks.
pub open spec fn cover(cs: Seq<ChunkView>) -> Set<int>
    decreases cs.len(),
{
    if cs.len() == 0 {
        Set::<int>::empty()
    } else {
        cover(cs.drop_last()) + range_set(cs.last())
    }
}

/// The set of lines covered by an aggregation state.
pub open spec fn state_cover(closed: Seq<ChunkView>, cur: Option<ChunkView>) -> Set<int> {
    cover(closed) + (match cur {
        Some(c) => range_set(c),
        None => Set::<int>::empty(),
    })
}

proof fn lemma_cover_push(cs: Seq<ChunkView>, c: ChunkView)
    ensures
        cover(cs.push(c)) == cover(cs) + range_set(c),
{
    assert(cs.push(c).drop_last() =~= cs);
    assert(cs.push(c).last() == c);
}

proof fn lemma_cover_finite(cs: Seq<ChunkView>)
    ensures
        cover(cs).finite(),
    decreases cs.len(),
{
    broadcast use vstd::set::axiom_set_union_finite;

    if cs.len() == 0 {
    } else {
        lemma_cover_finite(cs.drop_last());
        let c = cs.last();
        if c.start <= c.end {
            assert(range_set(c) =~= vstd::set_lib::set_int_range(c.start, c.end + 1));
            vstd::set_lib::lemma_int_range(c.start, c.end + 1);
        } else {
            assert(range_set(c) =~= Set::<int>::empty());
        }
    }
}

/// Widening the maximal context never closes a chunk earlier: after any
/// prefix of the matches, the run with the wider context has at most as many
/// closed chunks, an open chunk that encloses the narrower one, and covers at
/// least the same lines.
proof fn lemma_agg_monotone_inv(ms: Seq<int>, min_context: int, max1: int, max2: int, n: int)
    requires
        0 <= min_context <= max1 <= max2,
        valid_matches(ms, n),
    ensures
        ({
            let (c1, k1) = agg_state(ms, min_context, max1, n);
            let (c2, k2) = agg_state(ms, min_context, max2, n);
            &&& (k1 is Some <==> k2 is Some)
            &&& c2.len() <= c1.len()
            &&& k1 is Some ==> k2->0.start <= k1->0.start && k1->0.end <= k2->0.end
            &&& state_cover(c1, k1).subset_of(state_cover(c2, k2))
        }),
    decreases ms.len(),
{
    let (c1, k1) = agg_state(ms, min_context, max1, n);
    let (c2, k2) = agg_state(ms, min_context, max2, n);
    if ms.len() == 0 {
        assert(state_cover(c1, k1).subset_of(state_cover(c2, k2)));
    } else {
        let prev = ms.drop_last();
        assert(valid_matches(prev, n)) by {
            assert(forall|i: int| 0 <= i < prev.len() ==> #[trigger] prev[i] == ms[i]);
        }
        lemma_agg_monotone_inv(prev, min_context, max1, max2, n);
        lemma_agg_state_inv(prev, min_context, max1, n);
        lemma_agg_state_inv(prev, min_context, max2, n);
        let (p1, q1) = agg_state(prev, min_context, max1, n);
        let (p2, q2) = agg_state(prev, min_context, max2, n);
        let m = ms.last();
        assert(1 <= m <= n);
        let ws1 = window_start(m, max1);
        let ws2 = window_start(m, max2);
        let we1 = window_end(m, max1, n);
        let we2 = window_end(m, max2, n);
        assert(ws2 <= ws1 && we1 <= we2);
        match q1 {
            None => {
                assert(q2 is None);
                assert(state_cover(c1, k1).subset_of(state_cover(c2, k2)));
            },
            Some(v1) => {
                let v2 = q2->0;
                assert(v2.start <= v1.start && v1.end <= v2.end);
                assert(1 <= v1.start <= v1.end <= n);
                if merges(v1.end, m, min_context, max1) {
                    assert(merges(v2.end, m, min_context, max2));
                    let g1 = k1->0;
                    let g2 = k2->0;
                    assert(g1.start == v1.start && g2.start == v2.start);
                    assert(g1.end == int_max(v1.end, we1) && g2.end == int_max(v2.end, we2));
                    assert(g1.end <= g2.end);
                    assert(c1 == p1 && c2 == p2);
                    assert forall|x: int| state_cover(c1, k1).contains(x) implies state_cover(
                        c2,
                        k2,
                    ).contains(x) by {
                        if cover(p1).contains(x) {
                            assert(state_cover(p1, q1).contains(x));
                            assert(state_cover(p2, q2).contains(x));
                            assert(cover(p2).contains(x) || range_set(v2).contains(x));
                            assert(range_set(v2).subset_of(range_set(g2)));
                        } else {
                            assert(range_set(g1).contains(x));
                            assert(range_set(g2).contains(x));
                        }
                    }
                } else {
                    // The narrower run closes its chunk; the wider one may
                    // keep merging or close as well.
                    assert(ws1 - v1.end - 1 > 0);
                    assert(v1.start < ws1);
                    assert(c1 == p1.push(v1));
                    let g1 = k1->0;
                    assert(g1.start == ws1 && g1.end == we1);
                    lemma_cover_push(p1, v1);
                    if merges(v2.end, m, min_context, max2) {
                        let g2 = k2->0;
                        assert(c2 == p2);
                        assert(g2.start == v2.start && g2.end == int_max(v2.end, we2));
                        assert(c2.len() <= p1.len() < c1.len());
                        assert(g2.start <= v1.start < ws1 == g1.start);
                        assert(g1.end == we1 <= we2 <= g2.end);
                        assert forall|x: int| state_cover(c1, k1).contains(x) implies state_cover(
                            c2,
                            k2,
                        ).contains(x) by {
                            assert(cover(c1) == cover(p1) + range_set(v1));
                            if cover(p1).contains(x) || range_set(v1).contains(x) {
                                assert(state_cover(p1, q1).contains(x));
                                assert(state_cover(p2, q2).contains(x));
                                assert(cover(p2).contains(x) || range_set(v2).contains(x));
                                assert(range_set(v2).subset_of(range_set(g2)));
                            } else {
                                assert(range_set(g1).contains(x));
                                assert(range_set(g2).contains(x));
                            }
                        }
                    } else {
                        let g2 = k2->0;
                        assert(c2 == p2.push(v2));
                        assert(g2.start == ws2 && g2.end == we2);
                        lemma_cover_push(p2, v2);
                        assert forall|x: int| state_cover(c1, k1).contains(x) implies state_cover(
                            c2,
                            k2,
                        ).contains(x) by {
                            assert(cover(c1) == cover(p1) + range_set(v1));
                            assert(cover(c2) == cover(p2) + range_set(v2));
                            if cover(p1).contains(x) || range_set(v1).contains(x) {
                                assert(state_cover(p1, q1).contains(x));
                                assert(state_cover(p2, q2).contains(x));
                            } else {
                                assert(range_set(g1).contains(x));
                                assert(range_set(g2).contains(x));
                            }
                        }
                    }
                }
            },
        }
    }
}

/// Widening the maximal context, with the minimal context held fixed, never
/// increases the number of chunks and never uncovers a line: the lines
/// covered with the narrower context are a subset of those covered with the
/// wider one, so their number never decreases.
pub proof fn lemma_max_context_monotone(
    ms: Seq<int>,
    min_context: int,
    max1: int,
    max2: int,
    n: int,
)
    requires
        0 <= min_context <= max1 <= max2,
        valid_matches(ms, n),
    ensures
        chunks_spec(ms, min_context, max2, n).len() <= chunks_spec(ms, min_context, max1, n).len(),
        cover(chunks_spec(ms, min_context, max1, n)).subset_of(
            cover(chunks_spec(ms, min_context, max2, n)),
        ),
        cover(chunks_spec(ms, min_context, max1, n)).len() <= cover(
            chunks_spec(ms, min_context, max2, n),
        ).len(),
{
    lemma_agg_monotone_inv(ms, min_context, max1, max2, n);
    let (c1, k1) = agg_state(ms, min_context, max1, n);
    let (c2, k2) = agg_state(ms, min_context, max2, n);
    let cs1 = chunks_spec(ms, min_context, max1, n);
    let cs2 = chunks_spec(ms, min_context, max2, n);
    match k1 {
        None => {
            assert(cs1 == c1 && cs2 == c2);
            assert(cover(cs1) =~= state_cover(c1, k1));
            assert(cover(cs2) =~= state_cover(c2, k2));
        },
        Some(v1) => {
            let v2 = k2->0;
            assert(cs1 == c1.push(v1) && cs2 == c2.push(v2));
            lemma_cover_push(c1, v1);
            lemma_cover_push(c2, v2);
            assert(cover(cs1) =~= state_cover(c1, k1));
            assert(cover(cs2) =~= state_cover(c2, k2));
        },
    }
    lemma_cover_finite(cs2);
    vstd::set_lib::lemma_len_subset(cover(cs1), cover(cs2));
}

/// With no context at all, every chunk is exactly a maximal run of
/// consecutive (or repeated) match lines.
proof fn lemma_zero_context_runs(ms: Seq<int>, n: int)
    requires
        valid_matches(ms, n),
    ensures
        ({
            let (closed, cur) = agg_state(ms, 0, 0, n);
            &&& cur is Some ==> exact_run(cur->0)
            &&& forall|i: int| 0 <= i < closed.len() ==> exact_run(#[trigger] closed[i])
        }),
    decreases ms.len(),
{
    let (closed, cur) = agg_state(ms, 0, 0, n);
    if ms.len() == 0 {
    } else {
        let prev = ms.drop_last();
        lemma_zero_context_runs(prev, n);
        lemma_agg_state_inv(prev, 0, 0, n);
        assert(valid_matches(prev, n)) by {
            assert(forall|i: int| 0 <= i < prev.len() ==> #[trigger] prev[i] == ms[i]);
        }
        let (pclosed, pcur) = agg_state(prev, 0, 0, n);
        let m = ms.last();
        assert(1 <= m <= n);
        assert(window_start(m, 0) == m);
        assert(window_end(m, 0, n) == m);
        match pcur {
            None => {
                assert(exact_run(cur->0));
            },
            Some(c) => {
                let pm = prev.last();
                assert(pm <= m);
                assert(c.matched.last() == pm);
                assert(c.end == pm) by {
                    assert(c.end >= window_end(pm, 0, n) == pm);
                    assert(c.matched[c.matched.len() - 1] == pm);
                    assert(c.start <= c.matched[c.matched.len() - 1] <= c.end);
                    assert(c.end == c.matched.last());
                }
                if merges(c.end, m, 0, 0) {
                    let g = cur->0;
                    assert(m <= c.end + 1);
                    assert(g.matched == c.matched.push(m));
                    assert(exact_run(g)) by {
                        assert(forall|k: int|
                            0 <= k < c.matched.len() ==> #[trigger] g.matched[k] == c.matched[k]);
                        assert(g.matched.last() == m);
                        assert(g.end == int_max(c.end, m) == m || g.end == int_max(c.end, m)
                            == c.end);
                        assert(g.matched[g.matched.len() - 2] == pm);
                        assert(g.end == c.matched.last() || g.end == m);
                        assert(pm <= m <= pm + 1);
                    }
                } else {
                    assert(exact_run(cur->0));
                    assert(forall|i: int|
                        0 <= i < closed.len() ==> exact_run(#[trigger] closed[i])) by {
                        assert(forall|i: int|
                            0 <= i < pclosed.len() ==> #[trigger] closed[i] == pclosed[i]);
                        assert(closed.last() == c);
                    }
                }
            },
        }
    }
}

/// The chunk covers exactly its matched lines: it starts at the first and
/// ends at the last, and adjacent matched lines inside it are consecutive or
/// identical.
pub open spec fn exact_run(c: ChunkView) -> bool {
    &&& c.matched.len() >= 1
    &&& c.start == c.matched.first()
    &&& c.end == c.matched.last()
    &&& forall|k: int| 0 <= k < c.matched.len() - 1 ==> c.matched[k + 1] <= #[trigger] c.matched[k] + 1
}

/// With `min_context = max_context = 0`, two matches land in the same chunk
/// if and only if their line numbers are consecutive or identical: each chunk
/// is exactly a maximal run of consecutive matched lines, and the runs are
/// separated by at least one unmatched line.
#[verifier::rlimit(60)]
pub proof fn lemma_zero_context(ms: Seq<int>, n: int)
    requires
        valid_matches(ms, n),
    ensures
        ({
            let cs = chunks_spec(ms, 0, 0, n);
            &&& forall|i: int| 0 <= i < cs.len() ==> exact_run(#[trigger] cs[i])
            &&& forall|i: int|
                0 <= i < cs.len() - 1 ==> (#[trigger] cs[i]).matched.last() + 1 < cs[i
                    + 1].matched.first()
            &&& matched_concat(cs) == ms
        }),
{
    lemma_zero_context_runs(ms, n);
    lemma_chunks_partition(ms, 0, 0, n);
    let (closed, cur) = agg_state(ms, 0, 0, n);
    let cs = chunks_spec(ms, 0, 0, n);
    match cur {
        None => {
        },
        Some(c) => {
            assert(forall|i: int| 0 <= i < closed.len() ==> #[trigger] cs[i] == closed[i]);
            assert(cs.last() == c);
            assert(forall|i: int| 0 <= i < cs.len() ==> exact_run(#[trigger] cs[i]));
            assert forall|i: int| 0 <= i < cs.len() - 1 implies (#[trigger] cs[i]).matched.last()
                + 1 < cs[i + 1].matched.first() by {
                assert(exact_run(cs[i]) && exact_run(cs[i + 1]));
                assert(cs[i].end + 1 < cs[i + 1].start);
            }
        },
    }
}

/// The chunk sequence of one file partitions its matches: every chunk is well
/// formed and non-empty, consecutive chunks are strictly increasing and
/// non-overlapping, and reading off all matched lines in order gives back
/// exactly the input match lines — so every match lands in exactly one chunk.
pub proof fn lemma_chunks_partition(ms: Seq<int>, min_context: int, max_context: int, n: int)
    requires
        0 <= min_context <= max_context,
        valid_matches(ms, n),
    ensures
        ({
            let cs = chunks_spec(ms, min_context, max_context, n);
            &&& forall|i: int| 0 <= i < cs.len() ==> wf_chunk(#[trigger] cs[i], n)
            &&& forall|i: int|
                0 <= i < cs.len() - 1 ==> (#[trigger] cs[i]).end + 1 < cs[i + 1].start
            &&& matched_concat(cs) == ms
            &&& cs.len() == 0 <==> ms.len() == 0
        }),
{
    lemma_agg_state_inv(ms, min_context, max_context, n);
    let (closed, cur) = agg_state(ms, min_context, max_context, n);
    let cs = chunks_spec(ms, min_context, max_context, n);
    match cur {
        None => {
            assert(matched_concat(cs) =~= ms);
        },
        Some(c) => {
            assert(cs == closed.push(c));
            assert(cs.drop_last() =~= closed);
            assert(matched_concat(cs) == matched_concat(closed) + c.matched);
            assert(forall|i: int| 0 <= i < closed.len() ==> #[trigger] cs[i] == closed[i]);
            assert(forall|i: int| 0 <= i < cs.len() ==> wf_chunk(#[trigger] cs[i], n));
            assert(forall|i: int|
                0 <= i < cs.len() - 1 ==> (#[trigger] cs[i]).end + 1 < cs[i + 1].start) by {
                if closed.len() > 0 {
                    assert(cs[cs.len() - 2] == closed.last());
                }
            }
        },
    }
}

} // verus!
