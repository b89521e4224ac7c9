//! Static partition of the column range `0..=n` among the workers.
//!
//! With `k` workers the chunk size is `n / k`. Worker `i` takes the columns
//! from `i * (n / k)` up to, but not including, `(i + 1) * (n / k)`; the last
//! worker also takes what is left, up to and including column `n`.

use vstd::prelude::*;
use vstd::arithmetic::div_mod::lemma_fundamental_div_mod;
use crate::error::CountError;

verus! {

/// A contiguous range of columns, `start <= x < end`, for one worker.
#[derive(Clone, Copy, Debug, PartialEq, Eq)]
pub struct Chunk {
    /// The first column of the chunk.
    pub start: u64,
    /// The column after the last one of the chunk.
    pub end: u64,
}

/// The column at which chunk `i` of `k` begins, for `0 <= i < k`, and the
/// column after the whole range, `n + 1`, for `i == k`.
pub open spec fn chunk_boundary(n: int, k: int, i: int) -> int {
    if i == k {
        n + 1
    } else {
        i * (n / k)
    }
}

/// The boundaries start at column 0, never go back, and end after column
/// `n`: the chunks between them cover `0..=n` with no gap and no overlap.
pub proof fn lemma_chunk_boundaries(n: int, k: int, i: int)
    requires
        0 <= n,
        1 <= k,
        0 <= i < k,
    ensures
        chunk_boundary(n, k, 0) == 0,
        chunk_boundary(n, k, k) == n + 1,
        0 <= chunk_boundary(n, k, i) <= chunk_boundary(n, k, i + 1) <= n + 1,
        chunk_boundary(n, k, i) <= n,
        i + 1 < k ==> chunk_boundary(n, k, i + 1) - chunk_boundary(n, k, i) == n / k,
        i + 1 < k ==> chunk_boundary(n, k, i + 1) <= n,
{
    let size = n / k;
    lemma_fundamental_div_mod(n, k);
    assert(0 <= size && k * size <= n) by (nonlinear_arith)
        requires
            n == k * size + n % k,
            0 <= n % k < k,
            0 <= n,
            1 <= k,
    ;
    assert(0 <= i * size <= (i + 1) * size <= k * size && (i + 1) * size - i * size == size)
        by (nonlinear_arith)
        requires
            0 <= i < k,
            0 <= size,
    ;
}

/// Column `x` belongs to chunk `i` of the `k` chunks of the columns `0..=n`.
pub open spec fn chunk_holds(n: int, k: int, i: int, x: int) -> bool {
    0 <= i < k && chunk_boundary(n, k, i) <= x < chunk_boundary(n, k, i + 1)
}

/// The boundaries are in order, far apart or not.
pub proof fn lemma_chunk_boundaries_ordered(n: int, k: int, i: int, j: int)
    requires
        0 <= n,
        1 <= k,
        0 <= i <= j <= k,
    ensures
        chunk_boundary(n, k, i) <= chunk_boundary(n, k, j),
    decreases j - i,
{
    if i < j {
        lemma_chunk_boundaries_ordered(n, k, i, j - 1);
        lemma_chunk_boundaries(n, k, j - 1);
    }
}

/// The chunk, among the first `upto + 1`, that holds a column left of the
/// boundary that ends them.
proof fn lemma_find_chunk(n: int, k: int, x: int, upto: int) -> (i: int)
    requires
        0 <= n,
        1 <= k,
        0 <= upto < k,
        0 <= x < chunk_boundary(n, k, upto + 1),
    ensures
        chunk_holds(n, k, i, x),
    decreases upto,
{
    lemma_chunk_boundaries(n, k, 0);
    if chunk_boundary(n, k, upto) <= x {
        upto
    } else {
        lemma_find_chunk(n, k, x, upto - 1)
    }
}

/// Every column of `0..=n` belongs to one chunk and to no other: the chunks
/// leave no gap and do not overlap.
pub proof fn lemma_chunks_partition_columns(n: int, k: int, x: int)
    requires
        0 <= n,
        1 <= k,
        0 <= x <= n,
    ensures
        exists|i: int| chunk_holds(n, k, i, x),
        forall|i: int, j: int| chunk_holds(n, k, i, x) && chunk_holds(n, k, j, x) ==> i == j,
{
    let home = lemma_find_chunk(n, k, x, k - 1);
    assert(chunk_holds(n, k, home, x));
    assert forall|i: int, j: int| chunk_holds(n, k, i, x) && chunk_holds(n, k, j, x) implies i
        == j by {
        if i < j {
            lemma_chunk_boundaries_ordered(n, k, i + 1, j);
        } else if j < i {
            lemma_chunk_boundaries_ordered(n, k, j + 1, i);
        }
    }
}

/// No chunk reaches beyond column `n`.
pub proof fn lemma_chunk_holds_only_columns(n: int, k: int, i: int, x: int)
    requires
        0 <= n,
        1 <= k,
        chunk_holds(n, k, i, x),
    ensures
        0 <= x <= n,
{
    lemma_chunk_boundaries(n, k, i);
}

/// The chunk of worker `thread_id` among `num_threads` workers that share the
/// columns `0..=n`.
pub fn chunk_bounds(n: i64, num_threads: i64, thread_id: i64) -> (result: Result<
    Chunk,
    CountError,
>)
    ensures
        match result {
            Ok(chunk) => {
                &&& 0 <= n
                &&& 0 <= thread_id < num_threads
                &&& chunk.start == chunk_boundary(n as int, num_threads as int, thread_id as int)
                &&& chunk.end == chunk_boundary(
                    n as int,
                    num_threads as int,
                    thread_id as int + 1,
                )
                &&& chunk.start <= chunk.end <= n + 1
            },
            Err(e) => {
                &&& e is InvalidConfiguration
                &&& (n < 0 || num_threads < 1 || thread_id < 0 || thread_id >= num_threads)
            },
        },
{
    if n < 0 || num_threads < 1 || thread_id < 0 || thread_id >= num_threads {
        return Err(CountError::InvalidConfiguration);
    }
    let size: i64 = n / num_threads;
    proof {
        lemma_chunk_boundaries(n as int, num_threads as int, thread_id as int);
        assert(size == n as int / num_threads as int);
    }
    let start: i64 = thread_id * size;
    let end: u64 = if thread_id == num_threads - 1 {
        n as u64 + 1
    } else {
        ((thread_id + 1) * size) as u64
    };
    Ok(Chunk { start: start as u64, end })
}

} // verus!
