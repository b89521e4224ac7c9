//! Exact integer square roots.

use vstd::prelude::*;
use vstd::arithmetic::div_mod::lemma_fundamental_div_mod;
use vstd::arithmetic::power2::{lemma2_to64, lemma_pow2_pos, lemma_pow2_unfold, pow2};

verus! {

/// `root` is the floor of the square root of `value`: the one natural number
/// whose square does not exceed `value` while the next square does.
pub open spec fn is_floor_sqrt(value: int, root: int) -> bool {
    &&& 0 <= root
    &&& root * root <= value
    &&& value < (root + 1) * (root + 1)
}

/// Squaring is monotone on the natural numbers.
pub proof fn lemma_square_le(a: int, b: int)
    by (nonlinear_arith)
    requires
        0 <= a <= b,
    ensures
        a * a <= b * b,
{
}

/// Squaring is strictly monotone on the natural numbers.
pub proof fn lemma_square_strictly_monotone(a: int, b: int)
    by (nonlinear_arith)
    requires
        0 <= a < b,
    ensures
        a * a < b * b,
{
}

/// A number has at most one floor square root.
pub proof fn lemma_floor_sqrt_unique(value: int, r1: int, r2: int)
    requires
        is_floor_sqrt(value, r1),
        is_floor_sqrt(value, r2),
    ensures
        r1 == r2,
{
    if r1 < r2 {
        lemma_square_strictly_monotone(r1, r2);
        lemma_square_le(r1 + 1, r2);
    } else if r2 < r1 {
        lemma_square_strictly_monotone(r2, r1);
        lemma_square_le(r2 + 1, r1);
    }
}

/// The floor square root of a perfect square is the number that was squared.
pub proof fn lemma_floor_sqrt_of_square(k: int, root: int)
    requires
        0 <= k,
        is_floor_sqrt(k * k, root),
    ensures
        root == k,
{
    lemma_square_strictly_monotone(k, k + 1);
    lemma_floor_sqrt_unique(k * k, k, root);
}

/// One Newton step from a guess that is not below the root, and above its
/// own quotient, moves strictly down and stays not below the root.
proof fn lemma_newton_step(value: int, guess: int, quotient: int, next: int)
    requires
        0 <= value,
        1 <= guess,
        quotient == value / guess,
        quotient < guess,
        next == quotient + (guess - quotient) / 2,
    ensures
        quotient <= next < guess,
        value < (next + 1) * (next + 1),
{
    lemma_fundamental_div_mod(value, guess);
    assert(value < guess * (quotient + 1)) by (nonlinear_arith)
        requires
            value == guess * quotient + value % guess,
            0 <= value % guess < guess,
    ;
    let twice = 2 * (next + 1);
    assert(twice >= guess + quotient + 1);
    assert(twice * twice >= 4 * (guess * (quotient + 1))) by (nonlinear_arith)
        requires
            twice >= guess + quotient + 1,
            guess >= 1,
            quotient >= 0,
    ;
    assert(twice * twice == 4 * ((next + 1) * (next + 1))) by (nonlinear_arith)
        requires
            twice == 2 * (next + 1),
    ;
}

/// A guess that does not exceed its own quotient is not above the root.
proof fn lemma_newton_fixpoint(value: int, guess: int)
    requires
        0 <= value,
        1 <= guess,
        guess <= value / guess,
    ensures
        guess * guess <= value,
{
    lemma_fundamental_div_mod(value, guess);
    let quotient = value / guess;
    assert(guess * guess <= guess * quotient) by (nonlinear_arith)
        requires
            1 <= guess <= quotient,
    ;
}

/// `seed` is the least power of two whose square exceeds `value`.
spec fn is_sqrt_seed(value: int, seed: int) -> bool {
    &&& exists|e: nat| seed == pow2(e)
    &&& value < seed * seed
    &&& seed > 1 ==> (seed / 2) * (seed / 2) <= value
}

/// The starting point of the Newton iteration: the least power of two that
/// lies above the root.
fn sqrt_seed(value: u128) -> (seed: u128)
    ensures
        is_sqrt_seed(value as int, seed as int),
{
    let mut seed: u128 = 1;
    let mut rest: u128 = value;
    let ghost mut exponent: nat = 0;
    proof {
        lemma2_to64();
    }
    while rest > 0
        invariant
            seed == pow2(exponent),
            rest * (seed * seed) <= value,
            value < (rest + 1) * (seed * seed),
            seed > 1 ==> (seed / 2) * (seed / 2) <= value,
        decreases rest,
    {
        proof {
            let s = seed as int;
            let r = rest as int;
            lemma_pow2_pos(exponent);
            assert(s * s <= r * (s * s)) by (nonlinear_arith)
                requires
                    1 <= r,
            ;
            assert(s < 0x1_0000_0000_0000_0000) by (nonlinear_arith)
                requires
                    0 <= s,
                    s * s < 0x1_0000_0000_0000_0000_0000_0000_0000_0000,
            ;
            let r2 = r / 4;
            let s2 = 2 * s;
            assert(s2 * s2 == 4 * (s * s)) by (nonlinear_arith)
                requires
                    s2 == 2 * s,
            ;
            assert(r2 * (s2 * s2) <= r * (s * s)) by (nonlinear_arith)
                requires
                    s2 * s2 == 4 * (s * s),
                    0 <= 4 * r2 <= r,
            ;
            assert((r2 + 1) * (s2 * s2) >= (r + 1) * (s * s)) by (nonlinear_arith)
                requires
                    s2 * s2 == 4 * (s * s),
                    4 * (r2 + 1) >= r + 1,
            ;
            lemma_pow2_unfold(exponent + 1);
            exponent = exponent + 1;
        }
        rest = rest / 4;
        seed = seed * 2;
    }
    assert((rest + 1) * (seed * seed) == seed * seed) by (nonlinear_arith)
        requires
            rest == 0,
    ;
    seed
}

/// The floor of the exact square root of `value`, by Newton's iteration in
/// integers only.
pub fn integer_sqrt(value: u128) -> (root: u64)
    ensures
        is_floor_sqrt(value as int, root as int),
{
    if value < 2 {
        assert(is_floor_sqrt(0, 0) && is_floor_sqrt(1, 1)) by (nonlinear_arith);
        return value as u64;
    }
    let mut guess: u128 = sqrt_seed(value);
    proof {
        let g = guess as int;
        assert(1 <= g) by {
            let e = choose|e: nat| g == pow2(e);
            lemma_pow2_pos(e);
        }
        assert(g * g < (g + 1) * (g + 1)) by (nonlinear_arith)
            requires
                0 <= g,
        ;
    }
    loop
        invariant
            2 <= value,
            1 <= guess,
            value < (guess + 1) * (guess + 1),
        ensures
            1 <= guess,
            guess * guess <= value,
            value < (guess + 1) * (guess + 1),
        decreases guess,
    {
        let quotient: u128 = value / guess;
        if guess <= quotient {
            proof {
                lemma_newton_fixpoint(value as int, guess as int);
            }
            break;
        }
        let next: u128 = quotient + (guess - quotient) / 2;
        proof {
            lemma_newton_step(value as int, guess as int, quotient as int, next as int);
            assert(next != 0) by (nonlinear_arith)
                requires
                    2 <= value < (next + 1) * (next + 1),
            ;
        }
        guess = next;
    }
    proof {
        let g = guess as int;
        assert(g < 0x1_0000_0000_0000_0000) by (nonlinear_arith)
            requires
                0 <= g,
                g * g < 0x1_0000_0000_0000_0000_0000_0000_0000_0000,
        ;
    }
    guess as u64
}

} // verus!
