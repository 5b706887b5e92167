//! How the work of a product is spread over threads.
use crate::tensor;
use vstd::prelude::*;

verus! {

/// Multiply-accumulate work that justifies **one** thread.
///
/// The thread count is derived from this rather than from the core count, because spawning is
/// not free and a real model makes well over a hundred of these calls per decoded token:
/// spreading a call that takes 300 us single-threaded over 16 threads spends more on thread
/// creation than the parallelism saves. It also means the small calls stay serial.
pub const WORK_PER_THREAD: usize = 0x4_0000;

/// Upper bound on threads used per call, independent of how many cores the machine has.
///
/// Decoding one token is **memory-bandwidth-bound**: every weight is read once and used for a
/// single multiply-accumulate, so the ceiling is how fast the weights can be streamed, not how
/// many arithmetic units are available.
pub const MAX_THREADS: usize = 16;

/// The smaller of two.
pub open spec fn least(a: int, b: int) -> int {
    if a < b {
        a
    } else {
        b
    }
}

/// How many threads a product uses on a machine that runs `hw` at once.
pub open spec fn threads_for(rows: int, in_dim: int, out_dim: int, hw: int) -> int {
    least(
        least(least(rows * in_dim * out_dim, usize::MAX as int) / (WORK_PER_THREAD as int), hw),
        MAX_THREADS as int,
    )
}

/// How many threads a product uses on a machine that runs `hw` at once. Threads scale with
/// the work, then are capped by the machine and by [`MAX_THREADS`]. A call with less than one
/// thread's worth of work gets 0 here, which is the serial path.
pub fn thread_count(rows: usize, in_dim: usize, out_dim: usize, hw: usize) -> (r: usize)
    ensures
        r == threads_for(rows as int, in_dim as int, out_dim as int, hw as int),
        r <= MAX_THREADS,
        r <= hw,
{
    let work: usize = saturating_product(saturating_product(rows, in_dim), out_dim);
    proof {
        let whole = rows * in_dim * out_dim;
        if rows * in_dim > usize::MAX {
            if out_dim > 0 {
                assert(usize::MAX * out_dim >= usize::MAX) by (nonlinear_arith)
                    requires
                        out_dim >= 1,
                ;
                assert(rows * in_dim * out_dim >= usize::MAX) by (nonlinear_arith)
                    requires
                        rows * in_dim > usize::MAX,
                        out_dim >= 1,
                ;
            } else {
                assert(rows * in_dim * out_dim == 0) by (nonlinear_arith)
                    requires
                        out_dim == 0,
                ;
            }
        }
    }
    let n: usize = work / WORK_PER_THREAD;
    let capped: usize = if n < hw {
        n
    } else {
        hw
    };
    if capped < MAX_THREADS {
        capped
    } else {
        MAX_THREADS
    }
}

/// A product that stops at the largest number there is.
fn saturating_product(a: usize, b: usize) -> (r: usize)
    ensures
        r == least(a * b, usize::MAX as int),
{
    match a.checked_mul(b) {
        Some(p) => p,
        None => usize::MAX,
    }
}

/// The even share of `items` over `threads`, rounded up, and at least one.
pub open spec fn share(items: int, threads: int) -> int {
    if items <= 0 {
        1
    } else {
        (items - 1) / threads + 1
    }
}

/// The even share of `items` over `threads`, rounded up, and at least one.
pub fn chunk_len(items: usize, threads: usize) -> (r: usize)
    requires
        threads > 0,
    ensures
        r == share(items as int, threads as int),
        r >= 1,
{
    if items == 0 {
        return 1;
    }
    proof {
        assert(0 <= (items - 1) / (threads as int) <= items - 1) by (nonlinear_arith)
            requires
                items >= 1,
                threads >= 1,
        ;
    }
    (items - 1) / threads + 1
}

/// The ranges of a split into chunks of `chunk` items, from `base` on.
pub open spec fn chunks_from(items: int, chunk: int, base: int) -> Seq<(int, int)>
    decreases items - base,
{
    if base >= items || chunk <= 0 {
        seq![]
    } else {
        let len = if items - base < chunk {
            items - base
        } else {
            chunk
        };
        seq![(base, len)] + chunks_from(items, chunk, base + len)
    }
}

/// The split of `items` over `threads`, as `(base, len)` ranges.
///
/// What is split is the flattened output index space `(row, out)`, not the rows alone:
/// decoding one token has one row, and splitting by row would give one thread everything.
pub fn chunk_plan(items: usize, threads: usize) -> (r: Vec<(usize, usize)>)
    requires
        threads > 0,
    ensures
        r@.map_values(|c: (usize, usize)| (c.0 as int, c.1 as int)) == chunks_from(
            items as int,
            share(items as int, threads as int),
            0,
        ),
{
    let chunk: usize = chunk_len(items, threads);
    let mut out: Vec<(usize, usize)> = Vec::new();
    let mut base: usize = 0;
    let ghost f = |c: (usize, usize)| (c.0 as int, c.1 as int);
    let ghost all = chunks_from(items as int, chunk as int, 0);
    assert(out@.map_values(f) + all =~= all);
    while base < items
        invariant
            chunk >= 1,
            base <= items,
            f == |c: (usize, usize)| (c.0 as int, c.1 as int),
            all == out@.map_values(f) + chunks_from(items as int, chunk as int, base as int),
        decreases items - base,
    {
        let len: usize = if items - base < chunk {
            items - base
        } else {
            chunk
        };
        let ghost before = out@.map_values(f);
        out.push((base, len));
        proof {
            let c = (base as int, len as int);
            assert(out@.map_values(f) =~= before.push(c));
            let rest = chunks_from(items as int, chunk as int, base + len);
            assert(before + (seq![c] + rest) =~= out@.map_values(f) + rest);
        }
        base += len;
    }
    assert(out@.map_values(f) + Seq::<(int, int)>::empty() =~= out@.map_values(f));
    out
}

// ---------------------------------------------------------------------------
// what holds of a split
// ---------------------------------------------------------------------------
proof fn lemma_chunks(items: int, chunk: int, base: int)
    requires
        0 <= base <= items,
        0 < chunk,
    ensures
        ({
            let p = chunks_from(items, chunk, base);
            &&& p.len() == 0 <==> base == items
            &&& p.len() > 0 ==> p[0].0 == base && p.last().0 + p.last().1 == items
            &&& forall|k: int|
                0 <= k < p.len() ==> 0 < (#[trigger] p[k]).1 <= chunk && p[k].0 + p[k].1 <= items
            &&& forall|k: int| 0 <= k < p.len() - 1 ==> (#[trigger] p[k]).0 + p[k].1 == p[k + 1].0
            &&& forall|k: int| 0 <= k < p.len() - 1 ==> (#[trigger] p[k]).1 == chunk
        }),
    decreases items - base,
{
    if base < items {
        let len = if items - base < chunk {
            items - base
        } else {
            chunk
        };
        lemma_chunks(items, chunk, base + len);
        let p = chunks_from(items, chunk, base);
        let q = chunks_from(items, chunk, base + len);
        assert(p =~= seq![(base, len)] + q);
        assert forall|k: int| 0 <= k < p.len() implies 0 < (#[trigger] p[k]).1 <= chunk && p[k].0
            + p[k].1 <= items by {
            if k > 0 {
                assert(p[k] == q[k - 1]);
            }
        }
        assert forall|k: int| 0 <= k < p.len() - 1 implies (#[trigger] p[k]).0 + p[k].1 == p[k
            + 1].0 by {
            assert(p[k + 1] == q[k]);
            if k > 0 {
                assert(p[k] == q[k - 1]);
            }
        }
        assert forall|k: int| 0 <= k < p.len() - 1 implies (#[trigger] p[k]).1 == chunk by {
            if k > 0 {
                assert(p[k] == q[k - 1]);
            }
        }
        if q.len() > 0 {
            assert(p.last() == q.last());
        }
    }
}

/// A split covers every item once: its chunks are not empty, each begins where the one
/// before it ends, and together they reach from the first item to the last. It is balanced:
/// no chunk is bigger than an even share, rounded up.
pub proof fn split_covers_evenly(items: int, threads: int)
    requires
        0 <= items,
        0 < threads,
    ensures
        ({
            let p = chunks_from(items, share(items, threads), 0);
            &&& p.len() == 0 <==> items == 0
            &&& p.len() > 0 ==> p[0].0 == 0 && p.last().0 + p.last().1 == items
            &&& forall|k: int|
                0 <= k < p.len() ==> 0 < (#[trigger] p[k]).1 <= share(items, threads)
            &&& forall|k: int| 0 <= k < p.len() - 1 ==> (#[trigger] p[k]).0 + p[k].1 == p[k + 1].0
            &&& p.len() <= threads
        }),
{
    let chunk = share(items, threads);
    assert(chunk >= 1 && chunk * threads >= items) by (nonlinear_arith)
        requires
            items <= 0 ==> chunk == 1,
            items > 0 ==> chunk == (items - 1) / threads + 1,
            0 <= items,
            0 < threads,
    ;
    lemma_chunks(items, chunk, 0);
    let p = chunks_from(items, chunk, 0);
    lemma_chunk_starts(items, chunk);
    if p.len() > threads {
        assert(p[threads].0 == threads * chunk);
        assert(threads * chunk == chunk * threads) by (nonlinear_arith);
    }
}

/// As many threads as there is work for, and no more than there may be: each has its work, and
/// one more would have less, or would be more than the machine or the bound has.
pub proof fn threads_go_by_the_work(rows: int, in_dim: int, out_dim: int, hw: int)
    requires
        0 <= rows * in_dim * out_dim <= usize::MAX,
        0 <= hw,
    ensures
        ({
            let n = threads_for(rows, in_dim, out_dim, hw);
            &&& 0 <= n <= hw
            &&& n <= 16
            &&& n * 262144 <= rows * in_dim * out_dim
            &&& n < hw && n < 16 ==> (n + 1) * 262144 > rows * in_dim * out_dim
        }),
{
}

/// A share is the least that is enough: so many threads with that much each do everything, and
/// with one less they do not.
pub proof fn a_share_is_just_enough(items: int, threads: int)
    requires
        0 < items,
        0 < threads,
    ensures
        share(items, threads) * threads >= items,
        (share(items, threads) - 1) * threads < items,
{
    let n = share(items, threads);
    assert(n * threads >= items && (n - 1) * threads < items) by (nonlinear_arith)
        requires
            n == (items - 1) / threads + 1,
            0 < items,
            0 < threads,
    ;
}

/// The chunk `k` starts at `k` times the size of a chunk.
proof fn lemma_chunk_starts(items: int, chunk: int)
    requires
        0 <= items,
        0 < chunk,
    ensures
        forall|k: int|
            0 <= k < chunks_from(items, chunk, 0).len() ==> (#[trigger] chunks_from(
                items,
                chunk,
                0,
            )[k]).0 == k * chunk,
{
    lemma_chunks(items, chunk, 0);
    let p = chunks_from(items, chunk, 0);
    assert forall|k: int| 0 <= k < p.len() implies (#[trigger] p[k]).0 == k * chunk by {
        lemma_chunk_start(items, chunk, k);
    }
}

proof fn lemma_chunk_start(items: int, chunk: int, k: int)
    requires
        0 <= items,
        0 < chunk,
        0 <= k < chunks_from(items, chunk, 0).len(),
    ensures
        chunks_from(items, chunk, 0)[k].0 == k * chunk,
    decreases k,
{
    lemma_chunks(items, chunk, 0);
    let p = chunks_from(items, chunk, 0);
    if k > 0 {
        lemma_chunk_start(items, chunk, k - 1);
        assert(p[k - 1].0 + p[k - 1].1 == p[k - 1 + 1].0);
        assert(p[k - 1].1 == chunk);
        assert((k - 1) * chunk + chunk == k * chunk) by (nonlinear_arith);
    } else {
        assert(0 * chunk == 0) by (nonlinear_arith);
    }
}

/// The split is over output elements, not rows. There are more chunks than rows exactly
/// where `rows` chunks do not hold everything; with more threads than rows, and more outputs
/// than rows, they never do.
pub proof fn split_is_over_outputs(rows: int, out_dim: int, threads: int)
    requires
        0 < rows,
        0 < out_dim,
        0 < threads,
    ensures
        ({
            let items = rows * out_dim;
            let chunk = share(items, threads);
            let p = chunks_from(items, chunk, 0);
            &&& p.len() > rows <==> rows * chunk < items
            &&& threads > rows && out_dim > rows ==> p.len() > rows
        }),
{
    let items = rows * out_dim;
    assert(items > 0) by (nonlinear_arith)
        requires
            items == rows * out_dim,
            rows > 0,
            out_dim > 0,
    ;
    let chunk = share(items, threads);
    split_covers_evenly(items, threads);
    assert(chunk >= 1) by (nonlinear_arith)
        requires
            chunk == (items - 1) / threads + 1,
            items > 0,
            threads > 0,
    ;
    lemma_chunks(items, chunk, 0);
    lemma_chunk_starts(items, chunk);
    let p = chunks_from(items, chunk, 0);
    if p.len() > rows {
        assert(p[rows].0 == rows * chunk);
    } else {
        let n = p.len() as int;
        assert(p[n - 1].0 == (n - 1) * chunk);
        assert(items <= rows * chunk) by (nonlinear_arith)
            requires
                n <= rows,
                items <= (n - 1) * chunk + chunk,
                chunk >= 1,
        ;
    }
    if threads > rows && out_dim > rows {
        assert(rows * chunk < items) by (nonlinear_arith)
            requires
                chunk == (items - 1) / threads + 1,
                items == rows * out_dim,
                threads >= rows + 1,
                out_dim >= rows + 1,
                rows > 0,
        {
            let q = (items - 1) / threads;
            assert(q * threads <= items - 1);
            assert(q * (rows + 1) <= items - 1);
            assert(rows * q <= items - 1 - q);
            assert(items >= rows * (rows + 1));
            assert(q >= rows || rows * q + rows < items);
        }
    }
}

/// A product in ranges is the product: where each range of a split holds what the product
/// has there, the ranges one after the other hold the whole product.
pub proof fn ranges_make_the_product<T, F: Fn(&[T], &[T], usize) -> T>(
    cell: F,
    w: Seq<T>,
    x: Seq<T>,
    in_dim: int,
    out_dim: int,
    items: int,
    chunk: int,
    parts: Seq<Seq<T>>,
)
    requires
        0 <= items,
        0 < chunk,
        parts.len() == chunks_from(items, chunk, 0).len(),
        forall|j: int|
            0 <= j < parts.len() ==> (#[trigger] parts[j]).len() == chunks_from(items, chunk, 0)[j].1,
        forall|j: int, k: int|
            0 <= j < parts.len() && 0 <= k < parts[j].len() ==> tensor::product_at(
                cell,
                w,
                x,
                in_dim,
                out_dim,
                chunks_from(items, chunk, 0)[j].0 + k,
                #[trigger] parts[j][k],
            ),
    ensures
        parts.flatten().len() == items,
        forall|i: int|
            0 <= i < items ==> tensor::product_at(
                cell,
                w,
                x,
                in_dim,
                out_dim,
                i,
                #[trigger] parts.flatten()[i],
            ),
{
    lemma_chunks(items, chunk, 0);
    lemma_flatten(cell, w, x, in_dim, out_dim, items, chunk, parts, parts.len() as int);
    assert(parts.take(parts.len() as int) =~= parts);
}

proof fn lemma_flatten<T, F: Fn(&[T], &[T], usize) -> T>(
    cell: F,
    w: Seq<T>,
    x: Seq<T>,
    in_dim: int,
    out_dim: int,
    items: int,
    chunk: int,
    parts: Seq<Seq<T>>,
    n: int,
)
    requires
        0 <= items,
        0 < chunk,
        0 <= n <= parts.len(),
        parts.len() == chunks_from(items, chunk, 0).len(),
        forall|j: int|
            0 <= j < parts.len() ==> (#[trigger] parts[j]).len() == chunks_from(items, chunk, 0)[j].1,
        forall|j: int, k: int|
            0 <= j < parts.len() && 0 <= k < parts[j].len() ==> tensor::product_at(
                cell,
                w,
                x,
                in_dim,
                out_dim,
                chunks_from(items, chunk, 0)[j].0 + k,
                #[trigger] parts[j][k],
            ),
    ensures
        parts.take(n).flatten().len() == if n == 0 {
            0
        } else {
            chunks_from(items, chunk, 0)[n - 1].0 + chunks_from(items, chunk, 0)[n - 1].1
        },
        forall|i: int|
            0 <= i < parts.take(n).flatten().len() ==> tensor::product_at(
                cell,
                w,
                x,
                in_dim,
                out_dim,
                i,
                #[trigger] parts.take(n).flatten()[i],
            ),
    decreases n,
{
    lemma_chunks(items, chunk, 0);
    let p = chunks_from(items, chunk, 0);
    let head = parts.take(n);
    head.lemma_flatten_and_flatten_alt_are_equivalent();
    if n > 0 {
        lemma_flatten(cell, w, x, in_dim, out_dim, items, chunk, parts, n - 1);
        let before = parts.take(n - 1);
        before.lemma_flatten_and_flatten_alt_are_equivalent();
        assert(head.drop_last() =~= before);
        let last = parts[n - 1];
        assert(head.flatten() =~= before.flatten() + last);
        if n > 1 {
            assert(p[n - 2].0 + p[n - 2].1 == p[n - 2 + 1].0);
        }
        assert(before.flatten().len() == p[n - 1].0);
        assert forall|i: int| 0 <= i < head.flatten().len() implies tensor::product_at(
            cell,
            w,
            x,
            in_dim,
            out_dim,
            i,
            #[trigger] head.flatten()[i],
        ) by {
            if i < before.flatten().len() {
                assert(head.flatten()[i] == before.flatten()[i]);
            } else {
                let k = i - before.flatten().len();
                assert(head.flatten()[i] == parts[n - 1][k]);
            }
        }
    } else {
        assert(head =~= seq![]);
    }
}

} // verus!
