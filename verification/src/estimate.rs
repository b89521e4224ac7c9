//! The estimate of pi that a lattice count gives.
//!
//! The quarter-disc of radius `n` has area `pi * n * n / 4`, and for a large
//! radius about as many lattice points. Four times the count over `n * n`
//! therefore approaches pi. The estimate is kept as an exact fraction; to
//! divide is left to the caller.

use vstd::prelude::*;
use crate::counter::count_lattice_points;
use crate::disc::{lattice_count, lemma_lattice_count_bound};
use crate::error::CountError;
use crate::sqrt::lemma_square_le;

verus! {

/// An estimate of pi as the fraction `numerator / denominator`. For the
/// radius 0 the denominator is 0 and the fraction has no value.
#[derive(Clone, Copy, Debug, PartialEq, Eq)]
pub struct PiEstimate {
    /// Four times the number of lattice points in the quarter-disc.
    pub numerator: u128,
    /// The square of the radius.
    pub denominator: u128,
}

/// The estimate that `count` lattice points in the quarter-disc of radius
/// `n` give: four times the count, one quarter-disc for each quadrant with
/// nothing taken off for the axes they share, over `n * n`.
pub fn estimate_from_count(n: i64, count: u128) -> (result: Result<PiEstimate, CountError>)
    ensures
        match result {
            Ok(estimate) => {
                &&& 0 <= n
                &&& estimate.numerator == 4 * count
                &&& estimate.denominator == n * n
            },
            Err(e) => if n < 0 {
                e is InvalidConfiguration
            } else {
                e is ArithmeticOverflow && 4 * count > u128::MAX
            },
        },
{
    if n < 0 {
        return Err(CountError::InvalidConfiguration);
    }
    let radius: u128 = n as u128;
    assert(radius * radius <= 0x7fff_ffff_ffff_ffff * 0x7fff_ffff_ffff_ffff) by {
        lemma_square_le(radius as int, 0x7fff_ffff_ffff_ffff);
    }
    match count.checked_mul(4) {
        Some(numerator) => Ok(PiEstimate { numerator, denominator: radius * radius }),
        None => Err(CountError::ArithmeticOverflow),
    }
}

/// The estimate of pi from the quarter-disc of radius `n`, counted in
/// `num_threads` chunks.
pub fn approximate_pi(n: i64, num_threads: i64) -> (result: Result<PiEstimate, CountError>)
    ensures
        match result {
            Ok(estimate) => {
                &&& 0 <= n
                &&& 1 <= num_threads
                &&& estimate.numerator == 4 * lattice_count(n as int)
                &&& estimate.denominator == n * n
            },
            Err(e) => e is InvalidConfiguration && (n < 0 || num_threads < 1),
        },
{
    let count = match count_lattice_points(n, num_threads) {
        Ok(count) => count,
        Err(e) => {
            return Err(e);
        },
    };
    proof {
        lemma_lattice_count_bound(n as int);
        assert(4 * (n * (n + 1) + 1) <= 4 * (0x7fff_ffff_ffff_ffff * 0x8000_0000_0000_0000 + 1))
            by (nonlinear_arith)
            requires
                0 <= n <= 0x7fff_ffff_ffff_ffff,
        ;
    }
    estimate_from_count(n, count)
}

} // verus!
