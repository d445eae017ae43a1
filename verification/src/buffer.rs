//! The settings of a buffering run and the partition of the points into
//! chunks, the units in which the points are buffered.

use vstd::prelude::*;
use vstd::arithmetic::div_mod::lemma_fundamental_div_mod;
use vstd::arithmetic::div_mod::lemma_fundamental_div_mod_converse_div;
use crate::point::Point;

verus! {

/// The settings of a buffering run. Lengths are in millimetres.
#[derive(Clone, Copy, Debug, PartialEq, Eq, Structural)]
pub struct BufferParams {
    /// Radius of the disk put around every point.
    pub radius: u32,
    /// Edges that stand for a quarter of a circle.
    pub quadrant_segments: i32,
    /// Most points buffered in one piece.
    pub chunk_size: usize,
    /// How far simplification may move the outline; `None` leaves it as it is.
    pub simplify_tolerance: Option<u32>,
}

/// Whether the settings can drive a run: a positive radius, at least one
/// edge per quarter circle and at least one point per chunk.
pub open spec fn valid_params(params: BufferParams) -> bool {
    params.radius > 0 && params.quadrant_segments >= 1 && params.chunk_size >= 1
}

/// How many chunks of at most `chunk_size` items a sequence of `len` items
/// falls into.
pub open spec fn chunk_count(len: int, chunk_size: int) -> int
    recommends
        chunk_size >= 1,
{
    (len + chunk_size - 1) / chunk_size
}

/// Where chunk number `index` ends: one chunk size after its start, or at the
/// end of the sequence if that comes first.
pub open spec fn chunk_end(len: int, chunk_size: int, index: int) -> int {
    if index * chunk_size + chunk_size <= len {
        index * chunk_size + chunk_size
    } else {
        len
    }
}

/// Chunk number `index` of a sequence cut into consecutive pieces of
/// `chunk_size` items; the last piece may be shorter.
pub open spec fn chunk_at(s: Seq<Point>, chunk_size: int, index: int) -> Seq<Point>
    recommends
        chunk_size >= 1,
        0 <= index,
{
    s.subrange(index * chunk_size, chunk_end(s.len() as int, chunk_size, index))
}

/// The contents of a list of chunks.
pub open spec fn chunk_views(chunks: Seq<Vec<Point>>) -> Seq<Seq<Point>> {
    Seq::new(chunks.len(), |i: int| chunks[i]@)
}

/// All chunks of a sequence cut into pieces of `chunk_size` items.
pub open spec fn chunks_of(s: Seq<Point>, chunk_size: int) -> Seq<Seq<Point>>
    recommends
        chunk_size >= 1,
{
    Seq::new(
        chunk_count(s.len() as int, chunk_size) as nat,
        |i: int| chunk_at(s, chunk_size, i),
    )
}

/// The chunks cover the sequence: there are none for an empty sequence, every
/// chunk but the last starts before the end and is full, and the last one
/// reaches the end.
pub proof fn lemma_chunk_count(len: int, chunk_size: int)
    requires
        len >= 0,
        chunk_size >= 1,
    ensures
        chunk_count(len, chunk_size) >= 0,
        len == 0 <==> chunk_count(len, chunk_size) == 0,
        (chunk_count(len, chunk_size) - 1) * chunk_size < len || len == 0,
        len <= chunk_count(len, chunk_size) * chunk_size,
{
    let count = chunk_count(len, chunk_size);
    let x = len + chunk_size - 1;
    lemma_fundamental_div_mod(x, chunk_size);
    let r = x % chunk_size;
    assert(count * chunk_size == x - r) by (nonlinear_arith)
        requires
            x == chunk_size * count + r,
    ;
    assert((count - 1) * chunk_size == count * chunk_size - chunk_size) by (nonlinear_arith);
    if count <= 0 {
        assert(count * chunk_size <= 0) by (nonlinear_arith)
            requires
                count <= 0,
                chunk_size >= 1,
        ;
    }
    if len == 0 {
        assert(count == 0) by (nonlinear_arith)
            requires
                count * chunk_size == chunk_size - 1 - r,
                0 <= r < chunk_size,
                chunk_size >= 1,
        ;
    }
}

/// The first `k` chunks, joined, are the start of the sequence up to the end
/// of chunk `k - 1`.
proof fn lemma_chunks_prefix(s: Seq<Point>, chunk_size: int, k: int)
    requires
        chunk_size >= 1,
        0 <= k <= chunk_count(s.len() as int, chunk_size),
    ensures
        chunks_of(s, chunk_size).take(k).flatten() == s.take(
            if k * chunk_size <= s.len() {
                k * chunk_size
            } else {
                s.len() as int
            },
        ),
    decreases k,
{
    let all = chunks_of(s, chunk_size);
    let len = s.len() as int;
    lemma_chunk_count(len, chunk_size);
    if k == 0 {
        assert(all.take(0) =~= Seq::<Seq<Point>>::empty());
        assert(all.take(0).flatten() =~= Seq::<Point>::empty());
        assert(0 * chunk_size == 0);
        assert(s.take(0) =~= Seq::<Point>::empty());
    } else {
        lemma_chunks_prefix(s, chunk_size, k - 1);
        let start = (k - 1) * chunk_size;
        assert(start == k * chunk_size - chunk_size) by (nonlinear_arith)
            requires
                start == (k - 1) * chunk_size,
        ;
        assert(start < len) by (nonlinear_arith)
            requires
                start == (k - 1) * chunk_size,
                k <= chunk_count(len, chunk_size),
                (chunk_count(len, chunk_size) - 1) * chunk_size < len,
                chunk_size >= 1,
        ;
        assert(start >= 0) by (nonlinear_arith)
            requires
                start == (k - 1) * chunk_size,
                k >= 1,
                chunk_size >= 1,
        ;
        let piece = chunk_at(s, chunk_size, k - 1);
        assert(all.take(k) =~= all.take(k - 1).push(piece));
        all.take(k - 1).lemma_flatten_push(piece);
        let end = chunk_end(len, chunk_size, k - 1);
        assert(s.take(start) + piece =~= s.take(end));
    }
}

/// Joining the chunks gives the sequence back, whatever the chunk size.
pub proof fn lemma_chunks_rejoin(s: Seq<Point>, chunk_size: int)
    requires
        chunk_size >= 1,
    ensures
        chunks_of(s, chunk_size).flatten() == s,
{
    let count = chunk_count(s.len() as int, chunk_size);
    lemma_chunk_count(s.len() as int, chunk_size);
    lemma_chunks_prefix(s, chunk_size, count);
    assert(chunks_of(s, chunk_size).take(count) =~= chunks_of(s, chunk_size));
    assert(s.take(s.len() as int) =~= s);
}

/// Two partitions of the same points, with any two chunk sizes, hold the same
/// points in the same order.
pub proof fn lemma_chunk_size_is_immaterial(s: Seq<Point>, first: int, second: int)
    requires
        first >= 1,
        second >= 1,
    ensures
        chunks_of(s, first).flatten() == chunks_of(s, second).flatten(),
{
    lemma_chunks_rejoin(s, first);
    lemma_chunks_rejoin(s, second);
}

impl BufferParams {
    /// Whether the settings can drive a run.
    pub fn is_valid(&self) -> (valid: bool)
        ensures
            valid == valid_params(*self),
    {
        self.radius > 0 && self.quadrant_segments >= 1 && self.chunk_size >= 1
    }
}

/// Cuts the points into consecutive chunks of `chunk_size` items, the last
/// one holding what is left. No point is lost, repeated or moved.
pub fn split_chunks(points: &Vec<Point>, chunk_size: usize) -> (chunks: Vec<Vec<Point>>)
    requires
        chunk_size >= 1,
    ensures
        chunk_views(chunks@) == chunks_of(points@, chunk_size as int),
        chunks.len() == chunk_count(points.len() as int, chunk_size as int),
        forall|i: int|
            0 <= i < chunks.len() ==> (#[trigger] chunks[i])@ == chunk_at(
                points@,
                chunk_size as int,
                i,
            ),
        forall|i: int| 0 <= i < chunks.len() ==> 1 <= (#[trigger] chunks[i]).len() <= chunk_size,
        forall|i: int| 0 <= i < chunks.len() - 1 ==> (#[trigger] chunks[i]).len() == chunk_size,
        chunk_views(chunks@).flatten() == points@,
{
    let n: usize = points.len();
    let mut chunks: Vec<Vec<Point>> = Vec::new();
    let mut start: usize = 0;
    proof {
        assert(chunk_views(chunks@) =~= Seq::<Seq<Point>>::empty());
        assert(Seq::<Seq<Point>>::empty().flatten() =~= Seq::<Point>::empty());
        assert(points@.take(0) =~= Seq::<Point>::empty());
        assert(0 * chunk_size == 0);
    }
    while start < n
        invariant
            n == points.len(),
            chunk_size >= 1,
            start < n || n == 0,
            start == chunks.len() * chunk_size,
            forall|i: int|
                0 <= i < chunks.len() ==> (#[trigger] chunks[i])@ == chunk_at(
                    points@,
                    chunk_size as int,
                    i,
                ),
            forall|i: int| 0 <= i < chunks.len() ==> (#[trigger] chunks[i]).len() == chunk_size,
            chunk_views(chunks@).flatten() == points@.take(start as int),
        decreases n - start,
    {
        let end: usize = if chunk_size <= n - start {
            start + chunk_size
        } else {
            n
        };
        let ghost index: int = chunks.len() as int;
        let mut chunk: Vec<Point> = Vec::new();
        let mut k: usize = start;
        while k < end
            invariant
                n == points.len(),
                start <= k <= end <= n,
                chunk@ == points@.subrange(start as int, k as int),
            decreases end - k,
        {
            chunk.push(points[k]);
            proof {
                assert(points@.subrange(start as int, k as int).push(points@[k as int])
                    =~= points@.subrange(start as int, k + 1));
            }
            k = k + 1;
        }
        proof {
            assert(end == chunk_end(n as int, chunk_size as int, index));
            assert(chunk@ == chunk_at(points@, chunk_size as int, index));
            let before = chunk_views(chunks@);
            assert(chunk_views(chunks@.push(chunk)) =~= before.push(chunk@));
            before.lemma_flatten_push(chunk@);
            assert(points@.take(start as int) + chunk@ =~= points@.take(end as int));
            assert((index + 1) * chunk_size == index * chunk_size + chunk_size) by (nonlinear_arith);
        }
        chunks.push(chunk);
        if end == n {
            proof {
                let count: int = chunks.len() as int;
                let last: int = count - 1;
                assert(last * chunk_size == start);
                assert(points@.take(n as int) =~= points@);
                lemma_fundamental_div_mod_converse_div(
                    n + chunk_size - 1,
                    chunk_size as int,
                    count,
                    n + chunk_size - 1 - count * chunk_size,
                );
                assert(chunk_views(chunks@) =~= chunks_of(points@, chunk_size as int));
            }
            return chunks;
        }
        start = end;
    }
    proof {
        assert(n == 0);
        assert(chunks.len() * chunk_size == 0);
        assert(chunks.len() == 0) by (nonlinear_arith)
            requires
                chunks.len() * chunk_size == 0,
                chunk_size >= 1,
        ;
        assert(points@.take(0) =~= points@);
        lemma_fundamental_div_mod_converse_div(
            chunk_size - 1,
            chunk_size as int,
            0,
            chunk_size - 1,
        );
        assert(chunk_views(chunks@) =~= chunks_of(points@, chunk_size as int));
    }
    chunks
}

} // verus!
