use vstd::prelude::*;

use crate::gen_range;

verus! {

/// A source of uniform random integers, handed to whatever draws start
/// values or destinations, so that a run can be replayed from a seeded or
/// scripted source.
pub trait RandomSource {
    /// A value drawn from `[low, high)`.
    fn next_in(&mut self, low: i64, high: i64) -> (r: i64)
        requires
            low < high,
        ensures
            low <= r < high,
    ;
}

/// The operating system's generator.
pub struct OsSource;

impl RandomSource for OsSource {
    fn next_in(&mut self, low: i64, high: i64) -> (r: i64) {
        gen_range(low, high)
    }
}

} // verus!
