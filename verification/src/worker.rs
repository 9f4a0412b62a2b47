//! The protocol of one scan worker: which target to probe next, and what a
//! finished connection attempt means.

use crate::address::Target;
use vstd::prelude::*;

verus! {

/// How one connection attempt ended.
#[derive(Clone, Copy, Debug, PartialEq, Eq, Structural)]
pub enum ProbeEvent {
    /// The connection was made within the timeout.
    Connected,
    /// The attempt failed: refused, unreachable or another transport error.
    Failed,
    /// The timeout ran out first.
    TimedOut,
}

/// What a connection attempt says of its target.
#[derive(Clone, Copy, Debug, PartialEq, Eq, Structural)]
pub enum ConnectionOutcome {
    /// The target accepts connections.
    Open,
    /// The target is closed or cannot be reached. This is no error, and the
    /// target is not tried again.
    Closed,
}

/// A target is open exactly if the connection was made within the timeout.
pub open spec fn outcome_of(event: ProbeEvent) -> ConnectionOutcome {
    match event {
        ProbeEvent::Connected => ConnectionOutcome::Open,
        ProbeEvent::Failed => ConnectionOutcome::Closed,
        ProbeEvent::TimedOut => ConnectionOutcome::Closed,
    }
}

impl ProbeEvent {
    /// What this event says of the target that was probed.
    pub fn outcome(&self) -> (result: ConnectionOutcome)
        ensures
            result == outcome_of(*self),
    {
        match self {
            ProbeEvent::Connected => ConnectionOutcome::Open,
            ProbeEvent::Failed => ConnectionOutcome::Closed,
            ProbeEvent::TimedOut => ConnectionOutcome::Closed,
        }
    }
}

/// One worker's way through its chunk: the targets are probed one at a time,
/// in the order of the chunk.
pub struct ScanWorker {
    chunk: Vec<Target>,
    position: usize,
}

impl ScanWorker {
    /// The chunk that the worker was given.
    pub closed spec fn chunk(&self) -> Seq<Target> {
        self.chunk@
    }

    /// How many targets of the chunk have been dealt with.
    pub closed spec fn position(&self) -> nat {
        self.position as nat
    }

    /// Whether the worker is inside its chunk or at its end, as every
    /// worker made and changed through its own functions is.
    pub open spec fn well_formed(&self) -> bool {
        self.position() <= self.chunk().len()
    }

    /// A worker at the start of `chunk`.
    pub fn new(chunk: Vec<Target>) -> (worker: ScanWorker)
        ensures
            worker.well_formed(),
            worker.chunk() == chunk@,
            worker.position() == 0,
    {
        ScanWorker { chunk, position: 0 }
    }

    /// The target to probe now, or `None` once the chunk is exhausted.
    pub fn next_target(&self) -> (target: Option<Target>)
        requires
            self.well_formed(),
        ensures
            self.position() < self.chunk().len() ==> target == Some(
                self.chunk()[self.position() as int],
            ),
            self.position() >= self.chunk().len() ==> target.is_none(),
    {
        if self.position < self.chunk.len() {
            Some(self.chunk[self.position])
        } else {
            None
        }
    }

    /// Takes in how the attempt on the current target ended and moves on to
    /// the next target. Returns the current target if it is open, to be sent
    /// on at once; a closed target is passed over without a trace.
    pub fn complete(&mut self, event: ProbeEvent) -> (open: Option<Target>)
        requires
            old(self).well_formed(),
            old(self).position() < old(self).chunk().len(),
        ensures
            final(self).well_formed(),
            final(self).chunk() == old(self).chunk(),
            final(self).position() == old(self).position() + 1,
            outcome_of(event) == ConnectionOutcome::Open ==> open == Some(
                old(self).chunk()[old(self).position() as int],
            ),
            outcome_of(event) == ConnectionOutcome::Closed ==> open.is_none(),
    {
        let length: usize = self.chunk.len();
        let target = self.chunk[self.position];
        assert(self.position < length);
        self.position = self.position + 1;
        match event.outcome() {
            ConnectionOutcome::Open => Some(target),
            ConnectionOutcome::Closed => None,
        }
    }
}

} // verus!
