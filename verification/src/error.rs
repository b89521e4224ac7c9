//! The ways in which a count can be refused.

use vstd::prelude::*;

verus! {

/// Why no count was produced.
#[derive(Clone, Copy, Debug, PartialEq, Eq)]
pub enum CountError {
    /// The radius is negative, the number of workers is not positive, or a
    /// worker index does not name one of the workers.
    InvalidConfiguration,
    /// Partial counts handed in for reduction do not add up within 128 bits.
    ArithmeticOverflow,
}

} // verus!
