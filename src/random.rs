use vstd::prelude::*;

use crate::particle::DOMAIN_SIZE;

verus! {

/// Relies on rand::random: a value drawn from the thread-local generator.
/// Nothing is promised of which value comes out.
pub assume_specification<T>[ rand::random::<T> ]() -> (r: T)
    where
        rand::distributions::Standard: rand::distributions::Distribution<T>,
;

/// Width of the range of one random step: a step lies in
/// `[-STEP_SPAN / 2, STEP_SPAN / 2)` (half a unit of length either way).
pub const STEP_SPAN: u64 = 1000;

/// Half of `STEP_SPAN`: the largest distance one step may move an axis.
pub const HALF_STEP: i64 = 500;

/// A random value below `bound`.
pub fn random_below(bound: u64) -> (r: u64)
    requires
        bound > 0,
    ensures
        r < bound,
{
    let v: u64 = rand::random::<u64>();
    v % bound
}

/// A random move delta in `[-HALF_STEP, HALF_STEP)`.
pub fn random_delta() -> (r: i64)
    ensures
        -HALF_STEP <= r < HALF_STEP,
{
    let v: u64 = random_below(STEP_SPAN);
    v as i64 - HALF_STEP
}

/// A random coordinate in `[0, DOMAIN_SIZE)`.
pub fn random_coord() -> (r: i64)
    ensures
        0 <= r < DOMAIN_SIZE,
{
    let v: u64 = random_below(DOMAIN_SIZE as u64);
    v as i64
}

} // verus!
