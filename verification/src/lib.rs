//! Building blocks of an audio stream: a bounded chunk of samples, the
//! re-chunking of a microphone stream, and the decisions of generators that
//! answer their consumers' requests.

use vstd::prelude::*;

pub mod chonk;
pub mod dummy_streams;
pub mod generator;
pub mod mic;

verus! {

/// The sending half of a crossbeam channel, carried through opaquely.
#[verifier::external_type_specification]
#[verifier::external_body]
#[verifier::reject_recursive_types(T)]
pub struct ExCrossbeamSender<T>(crossbeam_channel::Sender<T>);

/// A microphone that hands its samples to a set of channels.
#[verifier::reject_recursive_types(T)]
pub struct Mic<T> {
    senders: Vec<crossbeam_channel::Sender<T>>,
}

impl<T> Mic<T> {
    /// The channels the microphone sends to.
    pub closed spec fn senders(&self) -> Seq<crossbeam_channel::Sender<T>> {
        self.senders@
    }

    /// A microphone that sends to no channel yet.
    pub fn new() -> (r: Self)
        ensures
            r.senders() == Seq::<crossbeam_channel::Sender<T>>::empty(),
    {
        Mic::default()
    }
}

impl<T> Default for Mic<T> {
    fn default() -> (r: Self)
        ensures
            r.senders() == Seq::<crossbeam_channel::Sender<T>>::empty(),
    {
        Self { senders: Vec::new() }
    }
}

} // verus!
