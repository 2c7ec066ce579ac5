//! The runtime clock that stamps and ages held packets, counting
//! nanoseconds since it was started, together with the log of every
//! reading taken from it.

use tokio::time::Instant;
use vstd::prelude::*;

verus! {

#[verifier::external_type_specification]
#[verifier::external_body]
pub struct ExInstant(Instant);

/// `tokio::time::Instant::now`: the current instant of the runtime clock.
/// Nothing is stated of it: it depends on the time of the call.
#[verifier::external_body]
fn instant_now() -> Instant {
    Instant::now()
}

/// `tokio::time::Instant::elapsed`, in nanoseconds: the time since
/// `start`, or zero if `start` lies in the future. Nothing is stated of
/// the value: it depends on the time of the call.
#[verifier::external_body]
fn nanos_since(start: &Instant) -> u64 {
    start.elapsed().as_nanos() as u64
}

/// A clock started at some instant; every reading it gives is recorded,
/// in order, in its log.
pub struct Clock {
    epoch: Instant,
    log: Ghost<Seq<u64>>,
}

impl Clock {
    /// The readings taken from this clock so far, oldest first.
    pub closed spec fn readings(&self) -> Seq<u64> {
        self.log@
    }

    /// A clock started now, with no reading taken yet.
    pub fn start() -> (r: Clock)
        ensures
            r.readings() == Seq::<u64>::empty(),
    {
        Clock { epoch: instant_now(), log: Ghost(Seq::empty()) }
    }

    /// Reads the clock: nanoseconds since it was started. The reading is
    /// appended to the log.
    pub fn read(&mut self) -> (t: u64)
        ensures
            final(self).readings() == old(self).readings().push(t),
    {
        let t = nanos_since(&self.epoch);
        self.log = Ghost(self.log@.push(t));
        t
    }
}

} // verus!
