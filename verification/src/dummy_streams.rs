//! The decision of a generator that repeats a value as often as it is asked to.

use vstd::prelude::*;

verus! {

/// How many values a repeating generator sends next, given how many it was last
/// asked for and what came from the request channel (`None` when the consumer
/// hung up, in which case the last count stays in force).
pub fn next_requested(requested: usize, received: Option<usize>) -> (r: usize)
    ensures
        r == match received {
            Some(n) => n,
            None => requested,
        },
{
    match received {
        Some(new_requested) => new_requested,
        None => requested,
    }
}

} // verus!
