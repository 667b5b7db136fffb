//! The session handle: it registers the measurements of what is sent and reads results back
//! into the slots they name.

use crate::demux::{demultiplex, demultiplexed};
use crate::error::Error;
use crate::measured::BlueqatMeasured;
use crate::operation::{Operation, OperationView};
use crate::script::{ops_to_script, script_text};
use crate::session::SessionLock;
use crate::slots::{
    assigned, covers, lemma_assigned_conflict_stays, measures_within_capacity, within_capacity,
    SlotTable, SLOT_COUNT,
};
use vstd::prelude::*;
use vstd::string::StringSliceAdditionalSpecFns;

verus! {

/// A live session on the engine. It keeps, for every physical qubit, the slot of a measurement
/// that was sent and has not been read back.
#[derive(Debug)]
pub struct BlueqatSimulator {
    slot: SlotTable,
}

impl BlueqatSimulator {
    /// The measurements sent and not read back, from qubit to slot.
    pub closed spec fn pending(&self) -> Map<u32, u32> {
        self.slot@
    }

    /// Validity of a session.
    pub open spec fn wf(&self) -> bool {
        within_capacity(self.pending())
    }

    pub(crate) fn fresh() -> (sim: BlueqatSimulator)
        ensures
            sim.wf(),
            sim.pending() == Map::<u32, u32>::empty(),
    {
        BlueqatSimulator { slot: SlotTable::new() }
    }

    /// Opens the session that `lock` guards. Fails with `ResourceBusy` while another session of
    /// that lock is live.
    pub fn new(lock: &mut SessionLock) -> (session: Result<BlueqatSimulator, Error>)
        ensures
            final(lock)@,
            session is Ok <==> !old(lock)@,
            session matches Ok(sim) ==> sim.wf() && sim.pending() == Map::<u32, u32>::empty(),
            session matches Err(e) ==> e == Error::ResourceBusy,
    {
        lock.acquire()
    }

    /// A result buffer in which every slot reads `false`.
    pub fn make_buffer(&self) -> (buf: BlueqatMeasured)
        ensures
            buf@ == Seq::new(SLOT_COUNT as nat, |s: int| false),
    {
        BlueqatMeasured::new()
    }

    /// Registers the measurements among `ops`, in order.
    ///
    /// Fails with `SlotConflict`, and registers nothing, if one of them measures a qubit whose
    /// earlier measurement has not been read back.
    pub fn assign_slot(&mut self, ops: &[Operation]) -> (done: Result<(), Error>)
        requires
            old(self).wf(),
            measures_within_capacity(ops.deep_view()),
        ensures
            final(self).wf(),
            match assigned(old(self).pending(), ops.deep_view()) {
                Some(pending) => done is Ok && final(self).pending() == pending,
                None => done == Err::<(), Error>(Error::SlotConflict) && final(self).pending()
                    == old(self).pending(),
            },
    {
        let ghost all = ops.deep_view();
        let mut table = self.slot;
        let mut i: usize = 0;
        proof {
            assert(all.take(0) =~= Seq::<OperationView>::empty());
        }
        while i < ops.len()
            invariant
                i <= ops.len(),
                all == ops.deep_view(),
                measures_within_capacity(all),
                table.wf(),
                old(self).wf(),
                self.slot == old(self).slot,
                assigned(old(self).pending(), all.take(i as int)) == Some(table@),
            decreases ops.len() - i,
        {
            proof {
                assert(all.take(i + 1).drop_last() =~= all.take(i as int));
                assert(all.take(i + 1).last() == all[i as int]);
            }
            match &ops[i] {
                Operation::Measure(q, s) => {
                    assert(all[i as int] == OperationView::Measure(*q, *s));
                    match table.assign(*q, *s) {
                        Err(e) => {
                            proof {
                                lemma_assigned_conflict_stays(
                                    old(self).pending(),
                                    all,
                                    i + 1,
                                );
                            }
                            return Err(e);
                        },
                        Ok(()) => {},
                    }
                },
                _ => {},
            }
            i += 1;
        }
        proof {
            assert(all.take(ops.len() as int) =~= all);
        }
        self.slot = table;
        Ok(())
    }

    /// Reads `measured`, the engine's sample, back into the slots of the pending measurements,
    /// and forgets them.
    ///
    /// The sample holds one character per physical qubit, that of qubit 0 first.
    pub fn write_buf_reset_slot(&mut self, measured: &str, buf: &mut BlueqatMeasured)
        requires
            old(self).wf(),
            covers(old(self).pending(), measured.spec_bytes().len()),
        ensures
            final(self).wf(),
            final(self).pending() == Map::<u32, u32>::empty(),
            final(buf)@ == demultiplexed(old(self).pending(), measured.spec_bytes(), old(buf)@),
    {
        demultiplex(&self.slot, measured.as_bytes(), buf);
        self.slot.clear();
    }

    /// Prepares `ops` for the engine: registers their measurements and gives the script to run.
    ///
    /// Fails with `SlotConflict`, and registers nothing, if a measurement among `ops` conflicts
    /// with one that has not been read back.
    pub fn send(&mut self, ops: &[Operation]) -> (script: Result<String, Error>)
        requires
            old(self).wf(),
            measures_within_capacity(ops.deep_view()),
        ensures
            final(self).wf(),
            match assigned(old(self).pending(), ops.deep_view()) {
                Some(pending) => script matches Ok(text) && text@ == script_text(ops.deep_view())
                    && final(self).pending() == pending,
                None => script matches Err(e) && e == Error::SlotConflict
                    && final(self).pending() == old(self).pending(),
            },
    {
        let script = ops_to_script(ops);
        match self.assign_slot(ops) {
            Ok(()) => Ok(script),
            Err(e) => Err(e),
        }
    }

    /// Takes the engine's answer to what was sent: `Some` sample, or `None` if the engine
    /// failed.
    ///
    /// A sample with a character for every pending qubit is read back into `buf`. Anything else
    /// is an `EngineError` and leaves `buf` as it was. Either way no measurement is pending
    /// afterwards: the session can be used for the next batch.
    pub fn receive(&mut self, sample: Option<&str>, buf: &mut BlueqatMeasured) -> (done: Result<
        (),
        Error,
    >)
        requires
            old(self).wf(),
        ensures
            final(self).wf(),
            final(self).pending() == Map::<u32, u32>::empty(),
            match sample {
                Some(text) if covers(old(self).pending(), text.spec_bytes().len()) => done is Ok
                    && final(buf)@ == demultiplexed(
                    old(self).pending(),
                    text.spec_bytes(),
                    old(buf)@,
                ),
                _ => done == Err::<(), Error>(Error::EngineError) && final(buf)@ == old(buf)@,
            },
    {
        match sample {
            Some(text) => {
                if self.slot.covered_by(text.as_bytes().len()) {
                    self.write_buf_reset_slot(text, buf);
                    Ok(())
                } else {
                    self.slot.clear();
                    Err(Error::EngineError)
                }
            },
            None => {
                self.slot.clear();
                Err(Error::EngineError)
            },
        }
    }
}

} // verus!
