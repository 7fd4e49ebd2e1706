//! Syllable lattice construction for a phonetic input method.
//!
//! The library turns the candidate spellings that a dictionary offers at each
//! position of a keystroke string into a directed acyclic graph over the
//! string's positions, indexes the graph's edges by syllable, and penalises
//! ambiguous syllable boundaries.

use vstd::prelude::*;

pub mod algo;

verus! {

/// The sum of two unsigned numbers that fits in 64 bits.
pub fn add(left: u64, right: u64) -> (sum: u64)
    requires
        left + right <= u64::MAX,
    ensures
        sum == left + right,
{
    left + right
}

} // verus!
