//! Splitting an index space `[0, n)` into contiguous chunks of a fixed size.
//!
//! Chunk `k` covers `[k * size, min((k + 1) * size, n))`. The lemmas of this
//! module show that these ranges tile `[0, n)`: they follow one another without
//! a gap, no two of them share an index, and every index lies in exactly one.

use vstd::prelude::*;

verus! {

/// Number of elements that one unit of chunked work covers.
pub const CHUNK_SIZE: usize = 32768;

/// How many chunks of `size` elements it takes to cover `n` elements: `n / size`, rounded up.
pub open spec fn chunk_count(n: int, size: int) -> int {
    if n % size == 0 {
        n / size
    } else {
        n / size + 1
    }
}

/// Whether `k` numbers a chunk of the partition of `n` elements.
pub open spec fn is_chunk(k: int, n: int, size: int) -> bool {
    0 <= k < chunk_count(n, size)
}

/// First index of chunk `k`.
pub open spec fn chunk_start(k: int, size: int) -> int {
    k * size
}

/// One past the last index of chunk `k` in a space of `n` elements.
pub open spec fn chunk_end(k: int, n: int, size: int) -> int {
    if (k + 1) * size <= n {
        (k + 1) * size
    } else {
        n
    }
}

/// Whether index `i` lies in chunk `k`.
pub open spec fn in_chunk(i: int, k: int, n: int, size: int) -> bool {
    chunk_start(k, size) <= i < chunk_end(k, n, size)
}

/// The chunk that holds index `i`.
pub open spec fn chunk_of(i: int, size: int) -> int {
    i / size
}

/// The elements of `s` that lie in chunk `k`.
pub open spec fn part<T>(s: Seq<T>, k: int, size: int) -> Seq<T> {
    s.subrange(chunk_start(k, size), chunk_end(k, s.len() as int, size))
}

/// Bounds of one chunk: it starts inside the space, is not empty, holds at most
/// `size` elements, and holds exactly `size` unless it is the last one.
pub proof fn lemma_chunk_bounds(k: int, n: int, size: int)
    requires
        0 < size,
        0 <= n,
        0 <= k < chunk_count(n, size),
    ensures
        0 <= chunk_start(k, size) < chunk_end(k, n, size) <= n,
        chunk_end(k, n, size) - chunk_start(k, size) <= size,
        k + 1 < chunk_count(n, size) ==> chunk_end(k, n, size) - chunk_start(k, size) == size,
        k + 1 == chunk_count(n, size) ==> chunk_end(k, n, size) == n,
{
    let q = n / size;
    let r = n % size;
    assert(n == q * size + r && 0 <= r < size) by (nonlinear_arith)
        requires
            0 < size,
            q == n / size,
            r == n % size,
    ;
    assert(0 <= q) by (nonlinear_arith)
        requires
            0 < size,
            0 <= n,
            q == n / size,
    ;
    assert(0 <= k * size) by (nonlinear_arith)
        requires
            0 <= k,
            0 < size,
    ;
    assert((k + 1) * size == k * size + size) by (nonlinear_arith);
    if k < q {
        assert((k + 1) * size <= q * size) by (nonlinear_arith)
            requires
                k + 1 <= q,
                0 < size,
        ;
    } else {
        assert(k == q && r != 0);
    }
    if k + 1 < chunk_count(n, size) {
        assert(k + 1 <= q);
    }
    if k + 1 == chunk_count(n, size) && r == 0 {
        assert(k + 1 == q);
    }
}

/// A chunk's number is at most the length of the space, so it fits wherever the
/// length fits.
pub proof fn lemma_chunk_number_fits(k: int, n: int, size: int)
    requires
        0 < size,
        0 <= n,
        is_chunk(k, n, size),
    ensures
        0 <= k < n,
{
    lemma_chunk_bounds(k, n, size);
    assert(k <= k * size) by (nonlinear_arith)
        requires
            0 <= k,
            0 < size,
    ;
}

/// The chunks follow one another: the first starts at zero, each one ends where
/// the next begins, and the last ends at `n`.
pub proof fn lemma_chunks_adjacent(k: int, n: int, size: int)
    requires
        0 < size,
        0 <= n,
        0 <= k < chunk_count(n, size),
    ensures
        chunk_start(0, size) == 0,
        k + 1 < chunk_count(n, size) ==> chunk_end(k, n, size) == chunk_start(k + 1, size),
        k + 1 == chunk_count(n, size) ==> chunk_end(k, n, size) == n,
{
    lemma_chunk_bounds(k, n, size);
    assert((k + 1) * size == k * size + size) by (nonlinear_arith);
}

/// Every index of `[0, n)` lies in the chunk `chunk_of` names, and that chunk exists.
pub proof fn lemma_index_in_its_chunk(i: int, n: int, size: int)
    requires
        0 < size,
        0 <= i < n,
    ensures
        0 <= chunk_of(i, size) < chunk_count(n, size),
        in_chunk(i, chunk_of(i, size), n, size),
{
    let k = i / size;
    let q = n / size;
    assert(i == k * size + i % size && 0 <= i % size < size) by (nonlinear_arith)
        requires
            0 < size,
            k == i / size,
    ;
    assert(n == q * size + n % size && 0 <= n % size < size) by (nonlinear_arith)
        requires
            0 < size,
            q == n / size,
    ;
    assert(0 <= k) by (nonlinear_arith)
        requires
            0 < size,
            0 <= i,
            k == i / size,
    ;
    assert(k <= q) by (nonlinear_arith)
        requires
            0 < size,
            i < n,
            k == i / size,
            q == n / size,
    ;
    if k == q {
        assert(n % size != 0);
    }
    assert((k + 1) * size == k * size + size) by (nonlinear_arith);
}

/// An index lies in no chunk but its own: a chunk that holds `i` is `chunk_of(i, size)`,
/// and `i` is then an index of `[0, n)`.
pub proof fn lemma_chunk_is_unique(i: int, k: int, n: int, size: int)
    requires
        0 < size,
        0 <= n,
        0 <= k < chunk_count(n, size),
        in_chunk(i, k, n, size),
    ensures
        0 <= i < n,
        k == chunk_of(i, size),
{
    lemma_chunk_bounds(k, n, size);
    assert((k + 1) * size == k * size + size) by (nonlinear_arith);
    assert(i / size == k) by (nonlinear_arith)
        requires
            0 < size,
            k * size <= i < k * size + size,
    ;
}

/// Two different chunks share no index.
pub proof fn lemma_chunks_disjoint(j: int, k: int, n: int, size: int)
    requires
        0 < size,
        0 <= n,
        0 <= j < chunk_count(n, size),
        0 <= k < chunk_count(n, size),
        j != k,
    ensures
        forall|i: int| !(in_chunk(i, j, n, size) && in_chunk(i, k, n, size)),
{
    assert forall|i: int| !(in_chunk(i, j, n, size) && in_chunk(i, k, n, size)) by {
        if in_chunk(i, j, n, size) && in_chunk(i, k, n, size) {
            lemma_chunk_is_unique(i, j, n, size);
            lemma_chunk_is_unique(i, k, n, size);
        }
    }
}

/// Whether some chunk of the partition holds index `i`.
pub open spec fn covered(i: int, n: int, size: int) -> bool {
    exists|k: int| 0 <= k < chunk_count(n, size) && #[trigger] in_chunk(i, k, n, size)
}

/// The chunks tile the index space: the indices that some chunk holds are exactly
/// those of `[0, n)`, and no index is held by two chunks.
pub proof fn lemma_partition_exact(n: int, size: int)
    requires
        0 < size,
        0 <= n,
    ensures
        forall|i: int| #[trigger] covered(i, n, size) <==> 0 <= i < n,
        forall|i: int, j: int, k: int|
            0 <= j < chunk_count(n, size) && 0 <= k < chunk_count(n, size)
                && #[trigger] in_chunk(i, j, n, size) && #[trigger] in_chunk(i, k, n, size)
                ==> j == k,
{
    assert forall|i: int| #[trigger] covered(i, n, size) <==> 0 <= i < n by {
        if 0 <= i < n {
            lemma_index_in_its_chunk(i, n, size);
            assert(in_chunk(i, chunk_of(i, size), n, size));
        }
        if covered(i, n, size) {
            let k = choose|k: int| 0 <= k < chunk_count(n, size) && #[trigger] in_chunk(i, k, n, size);
            lemma_chunk_is_unique(i, k, n, size);
        }
    }
    assert forall|i: int, j: int, k: int|
        0 <= j < chunk_count(n, size) && 0 <= k < chunk_count(n, size)
            && #[trigger] in_chunk(i, j, n, size) && #[trigger] in_chunk(i, k, n, size)
        implies j == k by {
        lemma_chunk_is_unique(i, j, n, size);
        lemma_chunk_is_unique(i, k, n, size);
    }
}

/// Counts the chunks that cover `n` elements.
pub fn count_chunks(n: usize, size: usize) -> (count: usize)
    requires
        size > 0,
    ensures
        count == chunk_count(n as int, size as int),
{
    let whole: usize = n / size;
    if n % size == 0 {
        whole
    } else {
        proof {
            assert(n / size < usize::MAX) by (nonlinear_arith)
                requires
                    0 < size,
                    n % size != 0,
                    n <= usize::MAX,
            ;
        }
        whole + 1
    }
}

/// The range `[start, end)` of chunk `k`.
pub fn chunk_range(k: usize, n: usize, size: usize) -> (range: (usize, usize))
    requires
        size > 0,
        k < chunk_count(n as int, size as int),
    ensures
        range.0 == chunk_start(k as int, size as int),
        range.1 == chunk_end(k as int, n as int, size as int),
        range.0 < range.1 <= n,
{
    proof {
        lemma_chunk_bounds(k as int, n as int, size as int);
        assert((k + 1) * size == k * size + size) by (nonlinear_arith);
    }
    let start: usize = k * size;
    let end: usize = if n - start > size {
        start + size
    } else {
        n
    };
    (start, end)
}

} // verus!
