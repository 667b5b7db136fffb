//! The exclusive session: at most one handle on the engine is live at a time.

use crate::error::Error;
use crate::simulator::BlueqatSimulator;
use vstd::prelude::*;

verus! {

/// What asking for a session does to the flag `live`: the flag afterwards, and whether the
/// session was granted.
pub open spec fn acquired(live: bool) -> (bool, Result<(), Error>) {
    if live {
        (true, Err(Error::ResourceBusy))
    } else {
        (true, Ok(()))
    }
}

/// What releasing a session does to the flag: it is cleared, whatever it was.
pub open spec fn released(live: bool) -> bool {
    false
}

/// The flag that guards the engine: set while a session is live.
#[derive(Debug)]
pub struct SessionLock {
    live: bool,
}

impl View for SessionLock {
    type V = bool;

    /// Whether a session is live.
    closed spec fn view(&self) -> bool {
        self.live
    }
}

impl SessionLock {
    /// A lock with no live session.
    pub fn new() -> (lock: SessionLock)
        ensures
            !lock@,
    {
        SessionLock { live: false }
    }

    /// Whether a session is live.
    pub fn is_live(&self) -> (live: bool)
        ensures
            live == self@,
    {
        self.live
    }

    /// Grants the session if none is live, and fails with `ResourceBusy` otherwise, in which
    /// case nothing changes.
    pub fn acquire(&mut self) -> (session: Result<BlueqatSimulator, Error>)
        ensures
            final(self)@ == acquired(old(self)@).0,
            match session {
                Ok(sim) => acquired(old(self)@).1 is Ok && sim.wf() && sim.pending()
                    == Map::<u32, u32>::empty(),
                Err(e) => acquired(old(self)@).1 == Err::<(), Error>(e),
            },
    {
        if self.live {
            Err(Error::ResourceBusy)
        } else {
            self.live = true;
            Ok(BlueqatSimulator::fresh())
        }
    }

    /// Ends the session and clears the flag, whatever state the session is in.
    pub fn release(&mut self, session: BlueqatSimulator)
        ensures
            final(self)@ == released(old(self)@),
    {
        self.live = false;
    }
}

/// While a session is live a second one is refused and the flag stays set; once the session is
/// released the next request is granted.
pub proof fn lemma_exclusive(live: bool)
    ensures
        acquired(live).1 is Ok ==> acquired(acquired(live).0) == (
            true,
            Err::<(), Error>(Error::ResourceBusy),
        ),
        acquired(live).1 is Err ==> acquired(live).0 == live,
        acquired(released(acquired(live).0)).1 is Ok,
{
}

} // verus!
