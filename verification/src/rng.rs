//! Randomness, used for initial TCP sequence numbers and ephemeral ports.

use vstd::prelude::*;

verus! {

/// Relies on `rand::random`: a value of the requested type drawn from the
/// thread-local generator.  Nothing is promised of the result; every
/// caller must be correct for any value that comes back.
pub assume_specification<T>[ rand::random::<T> ]() -> (r: T)
    where
        rand::distributions::Standard: rand::distributions::Distribution<T>,
;

} // verus!
