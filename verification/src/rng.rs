//! The crate's one source of randomness.

use vstd::prelude::*;

verus! {

/// Relies on rand::random: draws a value of rand's Standard distribution
/// from the thread-local generator. Nothing can be promised of a random
/// value, so no property of the result is assumed.
pub assume_specification<T>[ rand::random::<T> ]() -> (r: T)
    where
        rand::distributions::Standard: rand::distributions::Distribution<T>,
;

} // verus!
