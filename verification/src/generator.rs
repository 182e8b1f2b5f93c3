//! The decisions of a generator that answers requests from its consumer.

use vstd::prelude::*;

verus! {

/// A request that a consumer sends to a generator.
pub enum GenReq {
    /// Yield one value.
    Yield,
    /// Yield this many values.
    YieldN(usize),
    /// Stop generating.
    Stop,
}

/// What a repeating generator does after it has looked at its request channel.
#[derive(Debug, PartialEq, Eq, Structural)]
pub enum RepeatStep {
    /// Send the repeated value this many times, then wait for the next request.
    Send(usize),
    /// Stop the generator.
    Stop,
}

/// The step that a repeating generator takes, given how many values it was last
/// asked for and what came from the request channel (`None` when the consumer
/// hung up, in which case the last count stays in force).
pub fn repeat_step(requested: usize, request: Option<GenReq>) -> (r: RepeatStep)
    ensures
        r == match request {
            Some(GenReq::Yield) => RepeatStep::Send(1),
            Some(GenReq::YieldN(n)) => RepeatStep::Send(n),
            Some(GenReq::Stop) => RepeatStep::Stop,
            None => RepeatStep::Send(requested),
        },
{
    match request {
        Some(GenReq::YieldN(new_requested)) => RepeatStep::Send(new_requested),
        Some(GenReq::Stop) => RepeatStep::Stop,
        Some(GenReq::Yield) => RepeatStep::Send(1),
        None => RepeatStep::Send(requested),
    }
}

} // verus!
