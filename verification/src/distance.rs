//! The choice of a distance.

use vstd::prelude::*;

verus! {

/// Which distance to compute between two records.
#[derive(Debug, Clone, Copy, PartialEq, Eq)]
pub enum Distance {
    Manhattan,
    Euclidean,
    /// The Minkowski distance of the given order.
    Minkowski(usize),
}

} // verus!
