//! The quarter-disc of radius `n` and the lattice points in it.
//!
//! A lattice point is a pair of integers. The quarter-disc of radius `n` is
//! the region `x >= 0`, `y >= 0`, `x * x + y * y <= n * n`. Everything the
//! counter computes is stated as the size of a set of such points.

use vstd::prelude::*;
use vstd::set_lib::{lemma_len_subset, lemma_set_disjoint_lens};
use crate::sqrt::{is_floor_sqrt, lemma_square_le, lemma_square_strictly_monotone};

verus! {

/// The point `(x, y)` lies in the closed quarter-disc of radius `n`.
pub open spec fn in_quarter_disc(n: int, x: int, y: int) -> bool {
    0 <= x && 0 <= y && x * x + y * y <= n * n
}

/// The lattice points of the quarter-disc of radius `n`.
pub open spec fn lattice_points(n: int) -> Set<(int, int)> {
    Set::new(|p: (int, int)| in_quarter_disc(n, p.0, p.1))
}

/// The lattice points of the quarter-disc whose column `x` lies in the
/// half-open range `lo <= x < hi`.
pub open spec fn strip_points(n: int, lo: int, hi: int) -> Set<(int, int)> {
    Set::new(|p: (int, int)| lo <= p.0 < hi && in_quarter_disc(n, p.0, p.1))
}

/// How many lattice points the quarter-disc of radius `n` holds.
pub open spec fn lattice_count(n: int) -> nat {
    lattice_points(n).len()
}

/// How many lattice points of the quarter-disc lie in columns `lo..hi`.
pub open spec fn strip_count(n: int, lo: int, hi: int) -> nat {
    strip_points(n, lo, hi).len()
}

/// The points `(x, 0), (x, 1), .., (x, height - 1)`.
spec fn column_prefix(x: int, height: int) -> Set<(int, int)> {
    Set::new(|p: (int, int)| p.0 == x && 0 <= p.1 < height)
}

proof fn lemma_column_prefix_len(x: int, height: int)
    requires
        0 <= height,
    ensures
        column_prefix(x, height).finite(),
        column_prefix(x, height).len() == height,
    decreases height,
{
    if height == 0 {
        assert(column_prefix(x, height) =~= Set::empty());
    } else {
        lemma_column_prefix_len(x, height - 1);
        assert(column_prefix(x, height) =~= column_prefix(x, height - 1).insert(
            (x, height - 1),
        ));
    }
}

/// A column inside the disc holds the points from height 0 up to the floor
/// square root of `n * n - x * x`, and no others.
pub proof fn lemma_column_count(n: int, x: int, root: int)
    requires
        0 <= x <= n,
        is_floor_sqrt(n * n - x * x, root),
    ensures
        strip_points(n, x, x + 1).finite(),
        strip_count(n, x, x + 1) == root + 1,
{
    let column = strip_points(n, x, x + 1);
    let prefix = column_prefix(x, root + 1);
    assert forall|p: (int, int)| #[trigger] column.contains(p) <==> prefix.contains(p) by {
        if p.0 == x && 0 <= p.1 {
            if p.1 <= root {
                lemma_square_le(p.1, root);
            } else {
                lemma_square_le(root + 1, p.1);
            }
        }
    }
    assert(strip_points(n, x, x + 1) =~= column_prefix(x, root + 1));
    lemma_column_prefix_len(x, root + 1);
}

/// A column to the right of the disc holds no point.
pub proof fn lemma_column_outside(n: int, x: int)
    requires
        0 <= n < x,
    ensures
        strip_points(n, x, x + 1) =~= Set::empty(),
        strip_count(n, x, x + 1) == 0,
{
    let column = strip_points(n, x, x + 1);
    assert forall|p: (int, int)| !(#[trigger] column.contains(p)) by {
        if p.0 == x {
            lemma_square_strictly_monotone(n, x);
            assert(p.1 * p.1 >= 0) by (nonlinear_arith);
        }
    }
}

/// No column of the quarter-disc of radius `n` is higher than `n + 1`
/// points, and the last one, `x == n`, holds one point at most.
pub proof fn lemma_column_bound(n: int, x: int)
    requires
        0 <= n,
    ensures
        strip_points(n, x, x + 1).finite(),
        strip_count(n, x, x + 1) <= n + 1,
        x >= n ==> strip_count(n, x, x + 1) <= 1,
{
    let height = if x >= n { 1 } else { n + 1 };
    let column = strip_points(n, x, x + 1);
    let prefix = column_prefix(x, height);
    assert forall|p: (int, int)| #[trigger] column.contains(p) implies prefix.contains(p) by {
        assert(p.0 * p.0 >= 0) by (nonlinear_arith);
        if p.1 > n {
            lemma_square_strictly_monotone(n, p.1);
        }
        if x >= n && p.1 >= 1 {
            lemma_square_le(n, p.0);
            lemma_square_le(1, p.1);
        }
    }
    lemma_column_prefix_len(x, height);
    lemma_len_subset(strip_points(n, x, x + 1), column_prefix(x, height));
}

/// A strip is the disjoint union of its part left of `mid` and its part
/// from `mid` on, so the counts add up.
pub proof fn lemma_strip_split(n: int, lo: int, mid: int, hi: int)
    requires
        0 <= n,
        lo <= mid <= hi,
    ensures
        strip_points(n, lo, hi) =~= strip_points(n, lo, mid) + strip_points(n, mid, hi),
        strip_points(n, lo, mid).disjoint(strip_points(n, mid, hi)),
        strip_count(n, lo, hi) == strip_count(n, lo, mid) + strip_count(n, mid, hi),
{
    lemma_strip_finite(n, lo, mid);
    lemma_strip_finite(n, mid, hi);
    lemma_set_disjoint_lens(strip_points(n, lo, mid), strip_points(n, mid, hi));
}

/// Every strip of a quarter-disc is finite, and holds at most `n + 1`
/// points for each of its columns.
pub proof fn lemma_strip_finite(n: int, lo: int, hi: int)
    requires
        0 <= n,
    ensures
        strip_points(n, lo, hi).finite(),
        lo <= hi ==> strip_count(n, lo, hi) <= (hi - lo) * (n + 1),
        hi <= lo ==> strip_count(n, lo, hi) == 0,
    decreases hi - lo,
{
    if hi <= lo {
        assert(strip_points(n, lo, hi) =~= Set::empty());
    } else {
        lemma_strip_finite(n, lo, hi - 1);
        lemma_column_bound(n, hi - 1);
        assert(strip_points(n, lo, hi) =~= strip_points(n, lo, hi - 1) + strip_points(
            n,
            hi - 1,
            hi,
        ));
        lemma_set_disjoint_lens(strip_points(n, lo, hi - 1), strip_points(n, hi - 1, hi));
        assert((hi - lo) * (n + 1) == (hi - 1 - lo) * (n + 1) + (n + 1)) by (nonlinear_arith);
    }
}

/// The quarter-disc of radius `n` lies in the columns `0..=n`.
pub proof fn lemma_lattice_points_are_strip(n: int)
    requires
        0 <= n,
    ensures
        lattice_points(n) =~= strip_points(n, 0, n + 1),
        lattice_points(n).finite(),
        lattice_count(n) == strip_count(n, 0, n + 1),
{
    let disc = lattice_points(n);
    let strip = strip_points(n, 0, n + 1);
    assert forall|p: (int, int)| #[trigger] disc.contains(p) implies strip.contains(p) by {
        assert(p.1 * p.1 >= 0) by (nonlinear_arith);
        if p.0 > n {
            lemma_square_strictly_monotone(n, p.0);
        }
    }
    assert(lattice_points(n) =~= strip_points(n, 0, n + 1));
    lemma_strip_finite(n, 0, n + 1);
}

/// The quarter-disc of radius `n` holds at most `n * (n + 1) + 1` lattice
/// points.
pub proof fn lemma_lattice_count_bound(n: int)
    requires
        0 <= n,
    ensures
        1 <= lattice_count(n) <= n * (n + 1) + 1,
{
    lemma_lattice_points_are_strip(n);
    lemma_strip_split(n, 0, n, n + 1);
    lemma_strip_finite(n, 0, n);
    lemma_column_bound(n, n);
    assert(n * (n + 1) == (n - 0) * (n + 1));
    assert(is_floor_sqrt(n * n - n * n, 0)) by (nonlinear_arith);
    lemma_column_count(n, n, 0);
}

/// A larger radius gives strictly more lattice points.
pub proof fn lemma_lattice_count_strictly_increasing(n: int, m: int)
    requires
        0 <= n < m,
    ensures
        lattice_count(n) < lattice_count(m),
{
    lemma_lattice_points_are_strip(m);
    lemma_square_strictly_monotone(n, m);
    assert(lattice_points(n).subset_of(lattice_points(m)));
    assert(lattice_points(m).contains((m, 0int)));
    assert(!lattice_points(n).contains((m, 0int)));
    lattice_points(n).lemma_subset_not_in_lt(lattice_points(m), (m, 0int));
}

} // verus!
