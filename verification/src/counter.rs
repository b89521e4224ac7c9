//! Counting the lattice points of a quarter-disc, chunk by chunk.

use vstd::prelude::*;
use crate::disc::{
    lattice_count, lemma_column_count, lemma_column_outside, lemma_lattice_count_bound,
    lemma_lattice_points_are_strip, lemma_strip_finite, lemma_strip_split, strip_count,
};
use crate::error::CountError;
use crate::partition::{chunk_boundary, chunk_bounds, lemma_chunk_boundaries, Chunk};
use crate::sqrt::{integer_sqrt, lemma_square_le};

verus! {

/// The sum of a sequence of partial counts.
pub open spec fn partial_sum(partials: Seq<u128>) -> nat
    decreases partials.len(),
{
    if partials.len() == 0 {
        0
    } else {
        partial_sum(partials.drop_last()) + partials.last() as nat
    }
}

/// `partials` holds, for each of the `k` chunks of the columns `0..=n`, the
/// number of lattice points in that chunk.
pub open spec fn is_partial_counts(n: int, k: int, partials: Seq<u128>) -> bool {
    &&& partials.len() == k
    &&& forall|i: int|
        0 <= i < k ==> #[trigger] partials[i] as nat == strip_count(
            n,
            chunk_boundary(n, k, i),
            chunk_boundary(n, k, i + 1),
        )
}

/// The sum of a prefix does not exceed the sum of the whole.
proof fn lemma_partial_sum_prefix(partials: Seq<u128>, len: int)
    requires
        0 <= len <= partials.len(),
    ensures
        partial_sum(partials.take(len)) <= partial_sum(partials),
    decreases partials.len(),
{
    if len == partials.len() {
        assert(partials.take(len) =~= partials);
    } else {
        lemma_partial_sum_prefix(partials.drop_last(), len);
        assert(partials.drop_last().take(len) =~= partials.take(len));
    }
}

/// Extending a prefix by one item adds that item to the sum.
proof fn lemma_partial_sum_step(partials: Seq<u128>, len: int)
    requires
        0 <= len < partials.len(),
    ensures
        partial_sum(partials.take(len + 1)) == partial_sum(partials.take(len)) + partials[len],
{
    assert(partials.take(len + 1).drop_last() =~= partials.take(len));
}

/// The partial counts of the first `upto` chunks add up to the number of
/// lattice points left of the boundary that follows them.
proof fn lemma_partial_counts_prefix(n: int, k: int, partials: Seq<u128>, upto: int)
    requires
        0 <= n,
        1 <= k,
        is_partial_counts(n, k, partials),
        0 <= upto <= k,
    ensures
        partial_sum(partials.take(upto)) == strip_count(n, 0, chunk_boundary(n, k, upto)),
    decreases upto,
{
    lemma_chunk_boundaries(n, k, 0);
    if upto == 0 {
        lemma_strip_finite(n, 0, 0);
    } else {
        lemma_partial_counts_prefix(n, k, partials, upto - 1);
        lemma_partial_sum_step(partials, upto - 1);
        lemma_chunk_boundaries(n, k, upto - 1);
        lemma_strip_split(n, 0, chunk_boundary(n, k, upto - 1), chunk_boundary(n, k, upto));
    }
}

/// Whatever the number of chunks, their partial counts add up to the number
/// of lattice points of the whole quarter-disc.
pub proof fn lemma_partition_preserves_count(n: int, k: int, partials: Seq<u128>)
    requires
        0 <= n,
        1 <= k,
        is_partial_counts(n, k, partials),
    ensures
        partial_sum(partials) == lattice_count(n),
{
    lemma_partial_counts_prefix(n, k, partials, k);
    assert(partials.take(k) =~= partials);
    lemma_lattice_points_are_strip(n);
}

/// Two partitions of the same quarter-disc, into any two numbers of chunks,
/// give the same total.
pub proof fn lemma_thread_count_irrelevant(
    n: int,
    k1: int,
    partials1: Seq<u128>,
    k2: int,
    partials2: Seq<u128>,
)
    requires
        0 <= n,
        1 <= k1,
        1 <= k2,
        is_partial_counts(n, k1, partials1),
        is_partial_counts(n, k2, partials2),
    ensures
        partial_sum(partials1) == partial_sum(partials2),
{
    lemma_partition_preserves_count(n, k1, partials1);
    lemma_partition_preserves_count(n, k2, partials2);
}

/// The number of lattice points of the quarter-disc of radius `n` in the
/// columns of `chunk`: for each column `x` inside the disc, the heights from
/// 0 to the integer square root of `n * n - x * x`.
pub fn count_chunk(n: i64, chunk: Chunk) -> (result: Result<u128, CountError>)
    ensures
        match result {
            Ok(count) => 0 <= n && count == strip_count(
                n as int,
                chunk.start as int,
                chunk.end as int,
            ),
            Err(e) => e is InvalidConfiguration && n < 0,
        },
{
    if n < 0 {
        return Err(CountError::InvalidConfiguration);
    }
    let radius: u128 = n as u128;
    assert(radius * radius <= 0x7fff_ffff_ffff_ffff * 0x7fff_ffff_ffff_ffff) by {
        lemma_square_le(radius as int, 0x7fff_ffff_ffff_ffff);
    }
    let n_squared: u128 = radius * radius;
    let mut local: u128 = 0;
    let mut x: u64 = chunk.start;
    proof {
        lemma_strip_finite(n as int, chunk.start as int, chunk.start as int);
    }
    while x < chunk.end
        invariant
            0 <= n,
            radius == n,
            n_squared == n * n,
            chunk.start <= x,
            x <= chunk.end || (chunk.end < chunk.start && x == chunk.start),
            local == strip_count(n as int, chunk.start as int, x as int),
            local <= (x - chunk.start) * (n + 1),
        decreases chunk.end - x,
    {
        let column: u128 = x as u128;
        assert(column * column <= 0xffff_ffff_ffff_ffff * 0xffff_ffff_ffff_ffff) by {
            lemma_square_le(column as int, 0xffff_ffff_ffff_ffff);
        }
        let x_squared: u128 = column * column;
        proof {
            lemma_strip_split(n as int, chunk.start as int, x as int, x as int + 1);
            assert((x + 1 - chunk.start) * (n + 1) == (x - chunk.start) * (n + 1) + (n + 1))
                by (nonlinear_arith);
            assert((x + 1 - chunk.start) * (n + 1) <= 0x1_0000_0000_0000_0000
                * 0x8000_0000_0000_0000) by (nonlinear_arith)
                requires
                    0 <= x + 1 - chunk.start <= 0x1_0000_0000_0000_0000,
                    0 <= n + 1 <= 0x8000_0000_0000_0000,
            ;
        }
        if x_squared <= n_squared {
            let y_max: u64 = integer_sqrt(n_squared - x_squared);
            proof {
                if x > n {
                    lemma_square_le(n as int + 1, x as int);
                    assert((n + 1) * (n + 1) > n * n) by (nonlinear_arith)
                        requires
                            0 <= n,
                    ;
                }
                lemma_column_count(n as int, x as int, y_max as int);
                if y_max > n {
                    lemma_square_le(n as int + 1, y_max as int);
                    assert((n + 1) * (n + 1) > n * n - x * x) by (nonlinear_arith)
                        requires
                            0 <= n,
                    ;
                }
            }
            local = local + (y_max as u128 + 1);
        } else {
            proof {
                if x <= n {
                    lemma_square_le(x as int, n as int);
                }
                lemma_column_outside(n as int, x as int);
            }
        }
        x = x + 1;
    }
    proof {
        lemma_strip_finite(n as int, chunk.start as int, chunk.end as int);
    }
    Ok(local)
}

/// The sum of the workers' partial counts, or `ArithmeticOverflow` where it
/// does not fit in 128 bits.
pub fn reduce_partials(partials: &[u128]) -> (result: Result<u128, CountError>)
    ensures
        match result {
            Ok(total) => total == partial_sum(partials@),
            Err(e) => e is ArithmeticOverflow && partial_sum(partials@) > u128::MAX,
        },
{
    let mut total: u128 = 0;
    let mut i: usize = 0;
    while i < partials.len()
        invariant
            i <= partials.len(),
            total == partial_sum(partials@.take(i as int)),
        decreases partials.len() - i,
    {
        proof {
            lemma_partial_sum_step(partials@, i as int);
            lemma_partial_sum_prefix(partials@, i as int + 1);
        }
        match total.checked_add(partials[i]) {
            Some(sum) => {
                total = sum;
            },
            None => {
                return Err(CountError::ArithmeticOverflow);
            },
        }
        i = i + 1;
    }
    assert(partials@.take(i as int) =~= partials@);
    Ok(total)
}

/// The number of lattice points in the closed quarter-disc of radius `n`,
/// both axes included. The columns `0..=n` are split into `num_threads`
/// chunks, each chunk is counted by itself, and the partial counts are added
/// once all of them are there. The origin alone gives 1 for `n == 0`.
pub fn count_lattice_points(n: i64, num_threads: i64) -> (result: Result<u128, CountError>)
    ensures
        match result {
            Ok(count) => {
                &&& 0 <= n
                &&& 1 <= num_threads
                &&& count == lattice_count(n as int)
                &&& n == 0 ==> count == 1
            },
            Err(e) => e is InvalidConfiguration && (n < 0 || num_threads < 1),
        },
{
    if n < 0 || num_threads < 1 {
        return Err(CountError::InvalidConfiguration);
    }
    let mut partials: Vec<u128> = Vec::new();
    let mut thread_id: i64 = 0;
    while thread_id < num_threads
        invariant
            0 <= n,
            0 <= thread_id <= num_threads,
            partials.len() == thread_id,
            forall|i: int|
                0 <= i < thread_id ==> #[trigger] partials[i] as nat == strip_count(
                    n as int,
                    chunk_boundary(n as int, num_threads as int, i),
                    chunk_boundary(n as int, num_threads as int, i + 1),
                ),
        decreases num_threads - thread_id,
    {
        let chunk = chunk_bounds(n, num_threads, thread_id).unwrap();
        let partial = count_chunk(n, chunk).unwrap();
        partials.push(partial);
        thread_id = thread_id + 1;
    }
    proof {
        lemma_partition_preserves_count(n as int, num_threads as int, partials@);
        lemma_lattice_count_bound(n as int);
        assert(n * (n + 1) + 1 <= 0x7fff_ffff_ffff_ffff * 0x8000_0000_0000_0000 + 1 && (n == 0
            ==> n * (n + 1) + 1 == 1)) by (nonlinear_arith)
            requires
                0 <= n <= 0x7fff_ffff_ffff_ffff,
        ;
    }
    reduce_partials(partials.as_slice())
}

} // verus!
