//! The pipelined executor: batches are submitted without waiting, run one after the other in
//! the order of submission, and waited for by number.
//!
//! The executor runs nothing itself. It says which unit the engine has to run next, is told what
//! came back, and keeps each result until it is waited for.

use crate::buffer::Batch;
use crate::error::Error;
use crate::script::{ops_to_script, script_text};
use crate::simulator::BlueqatSimulator;
use crate::slots::{within_capacity, SlotTable};
use vstd::prelude::*;

verus! {

/// What the engine answered for the unit that was running.
#[derive(Debug)]
pub enum EngineReply {
    /// The script ran, and this sample was drawn after it.
    Sample(String),
    /// The engine rejected the script or gave no sample. It can go on with the next unit.
    Failed,
    /// The engine is left in an undefined state: nothing more can run in this session.
    Broken,
}

/// An [`EngineReply`] with the sample as a sequence of characters.
pub enum ReplyView {
    Sample(Seq<char>),
    Failed,
    Broken,
}

impl View for EngineReply {
    type V = ReplyView;

    open spec fn view(&self) -> ReplyView {
        match *self {
            EngineReply::Sample(text) => ReplyView::Sample(text@),
            EngineReply::Failed => ReplyView::Failed,
            EngineReply::Broken => ReplyView::Broken,
        }
    }
}

/// One submitted unit, as the executor sees it.
pub struct UnitView {
    /// The script that the engine has to run.
    pub script: Seq<char>,
    /// The pending measurements, as captured when the batch was flushed.
    pub pending: Map<u32, u32>,
    /// Whether the result is kept until it is waited for.
    pub awaited: bool,
}

/// What came back for a unit: the sample, or nothing.
pub enum OutcomeView {
    Sample(Seq<char>),
    Failed,
}

/// A unit that has run and whose result has not been fetched yet.
pub struct FinishedView {
    /// Its number in the order of submission.
    pub unit: nat,
    /// Its pending measurements.
    pub pending: Map<u32, u32>,
    /// What came back for it.
    pub outcome: OutcomeView,
}

/// The answer to waiting for a unit.
pub enum WaitedView {
    Pending,
    Ready(Seq<char>, Map<u32, u32>),
    Failed,
    Unknown,
}

/// The state of an executor.
pub struct PipelineView {
    /// Every unit submitted so far, in the order of submission. A unit's number is its index.
    pub units: Seq<UnitView>,
    /// How many of them have run or failed. They are the first ones: units run in order.
    pub executed: nat,
    /// The units that have run and whose result is still kept, in the order in which they ran.
    pub finished: Seq<FinishedView>,
    /// Whether the engine was reported broken.
    pub broken: bool,
}

/// `i` is the first place in `finished` that holds the result of `unit`.
pub open spec fn holds_first(finished: Seq<FinishedView>, unit: nat, i: int) -> bool {
    &&& 0 <= i < finished.len()
    &&& finished[i].unit == unit
    &&& forall|j: int| 0 <= j < i ==> (#[trigger] finished[j]).unit != unit
}

/// The first place in `finished` that holds the result of `unit`, if one does.
pub open spec fn first_finished(finished: Seq<FinishedView>, unit: nat) -> Option<int> {
    if exists|i: int| holds_first(finished, unit, i) {
        Some(choose|i: int| holds_first(finished, unit, i))
    } else {
        None
    }
}

impl PipelineView {
    /// An executor to which nothing was submitted.
    pub open spec fn empty() -> PipelineView {
        PipelineView { units: Seq::empty(), executed: 0, finished: Seq::empty(), broken: false }
    }

    /// Validity: only submitted units have run, only units that ran have a result, and a broken
    /// engine leaves nothing to run.
    pub open spec fn wf(self) -> bool {
        &&& self.executed <= self.units.len()
        &&& self.broken ==> self.executed == self.units.len()
        &&& forall|i: int|
            0 <= i < self.finished.len() ==> (#[trigger] self.finished[i]).unit < self.executed
                && within_capacity(self.finished[i].pending)
        &&& forall|k: int|
            0 <= k < self.units.len() ==> within_capacity((#[trigger] self.units[k]).pending)
    }

    /// The unit that the engine has to run now: the oldest that has not run.
    pub open spec fn next_unit(self) -> Option<nat> {
        if self.executed < self.units.len() {
            Some(self.executed)
        } else {
            None
        }
    }

    /// The oldest unit that has not run is done with `outcome`: its result is kept if it is
    /// awaited.
    pub open spec fn finished_one(self, outcome: OutcomeView) -> PipelineView {
        let unit = self.units[self.executed as int];
        PipelineView {
            executed: self.executed + 1,
            finished: if unit.awaited {
                self.finished.push(
                    FinishedView { unit: self.executed, pending: unit.pending, outcome },
                )
            } else {
                self.finished
            },
            ..self
        }
    }

    /// Every unit that has not run fails, oldest first.
    pub open spec fn drained(self) -> PipelineView
        decreases self.units.len() - self.executed,
    {
        if self.executed >= self.units.len() {
            self
        } else {
            self.finished_one(OutcomeView::Failed).drained()
        }
    }

    /// One more unit. With a broken engine it fails at once.
    pub open spec fn submitted(self, unit: UnitView) -> PipelineView {
        let grown = PipelineView { units: self.units.push(unit), ..self };
        if self.broken {
            grown.finished_one(OutcomeView::Failed)
        } else {
            grown
        }
    }

    /// The engine's answer for the unit that was running. Without such a unit nothing changes.
    pub open spec fn completed(self, reply: ReplyView) -> PipelineView {
        if self.executed >= self.units.len() {
            self
        } else {
            match reply {
                ReplyView::Sample(text) => self.finished_one(OutcomeView::Sample(text)),
                ReplyView::Failed => self.finished_one(OutcomeView::Failed),
                ReplyView::Broken => PipelineView { broken: true, ..self.drained() },
            }
        }
    }

    /// The state after one event.
    pub open spec fn after(self, event: PipelineEvent) -> PipelineView {
        match event {
            PipelineEvent::Submit(unit) => self.submitted(unit),
            PipelineEvent::Complete(reply) => self.completed(reply),
            PipelineEvent::Wait(unit) => self.waited(unit).0,
        }
    }

    /// The state after a sequence of events.
    pub open spec fn replay(self, events: Seq<PipelineEvent>) -> PipelineView
        decreases events.len(),
    {
        if events.len() == 0 {
            self
        } else {
            self.replay(events.drop_last()).after(events.last())
        }
    }

    /// The units that the engine ran while `events` happened, in the order in which it ran
    /// them: a unit has been run when its answer comes in.
    pub open spec fn trace(self, events: Seq<PipelineEvent>) -> Seq<nat>
        decreases events.len(),
    {
        if events.len() == 0 {
            Seq::empty()
        } else {
            let earlier = self.trace(events.drop_last());
            match (events.last(), self.replay(events.drop_last()).next_unit()) {
                (PipelineEvent::Complete(_), Some(unit)) => earlier.push(unit),
                _ => earlier,
            }
        }
    }

    /// Waiting for `unit`: a kept result is handed out and forgotten; an awaited unit that has
    /// not run is pending; of any other unit nothing is known.
    pub open spec fn waited(self, unit: nat) -> (PipelineView, WaitedView) {
        match first_finished(self.finished, unit) {
            Some(i) => (
                PipelineView { finished: self.finished.remove(i), ..self },
                match self.finished[i].outcome {
                    OutcomeView::Sample(text) => WaitedView::Ready(text, self.finished[i].pending),
                    OutcomeView::Failed => WaitedView::Failed,
                },
            ),
            None => if self.executed <= unit < self.units.len() && self.units[unit as int].awaited {
                (self, WaitedView::Pending)
            } else {
                (self, WaitedView::Unknown)
            },
        }
    }
}

/// What can happen to an executor: a unit is submitted, the engine's answer for the running
/// unit comes in, or a unit is waited for.
pub enum PipelineEvent {
    Submit(UnitView),
    Complete(ReplyView),
    Wait(nat),
}

/// The measurements of a submitted unit lie within the table's capacity.
pub open spec fn event_fits(event: PipelineEvent) -> bool {
    event matches PipelineEvent::Submit(unit) ==> within_capacity(unit.pending)
}

/// Failing every unit that has not run keeps the units, runs them out, and keeps a valid state
/// valid.
proof fn lemma_drained(state: PipelineView)
    requires
        state.wf(),
    ensures
        state.drained().wf(),
        state.drained().units == state.units,
        state.drained().executed == state.units.len(),
        state.drained().broken == state.broken,
    decreases state.units.len() - state.executed,
{
    if state.executed < state.units.len() {
        let next = state.finished_one(OutcomeView::Failed);
        assert(!state.broken);
        assert(next.wf());
        lemma_drained(next);
    }
}

/// Every event keeps a valid state valid.
pub proof fn lemma_after_wf(state: PipelineView, event: PipelineEvent)
    requires
        state.wf(),
        event_fits(event),
    ensures
        state.after(event).wf(),
{
    match event {
        PipelineEvent::Submit(unit) => {
            let grown = PipelineView { units: state.units.push(unit), ..state };
            assert forall|k: int| 0 <= k < grown.units.len() implies within_capacity(
                (#[trigger] grown.units[k]).pending,
            ) by {
                if k < state.units.len() {
                    assert(grown.units[k] == state.units[k]);
                }
            }
        },
        PipelineEvent::Complete(reply) => {
            if state.executed < state.units.len() {
                lemma_drained(state);
            }
        },
        PipelineEvent::Wait(unit) => {
            match first_finished(state.finished, unit) {
                Some(i) => {
                    let rest = state.finished.remove(i);
                    assert forall|k: int| 0 <= k < rest.len() implies (#[trigger] rest[k]).unit
                        < state.executed && within_capacity(rest[k].pending) by {
                        if k < i {
                            assert(rest[k] == state.finished[k]);
                        } else {
                            assert(rest[k] == state.finished[k + 1]);
                        }
                    }
                },
                None => {},
            }
        },
    }
}

/// The engine runs the units in the order of their submission, without a gap and none twice:
/// whatever happens from a valid state on, the units it runs are the next ones that had not
/// run, one after the other.
pub proof fn lemma_runs_in_submission_order(state: PipelineView, events: Seq<PipelineEvent>)
    requires
        state.wf(),
        forall|i: int| 0 <= i < events.len() ==> event_fits(#[trigger] events[i]),
    ensures
        state.replay(events).wf(),
        forall|i: int|
            0 <= i < state.trace(events).len() ==> #[trigger] state.trace(events)[i]
                == state.executed + i,
        state.replay(events).executed >= state.executed + state.trace(events).len(),
        !state.replay(events).broken ==> state.replay(events).executed == state.executed
            + state.trace(events).len(),
    decreases events.len(),
{
    if events.len() > 0 {
        let front = events.drop_last();
        assert forall|i: int| 0 <= i < front.len() implies event_fits(#[trigger] front[i]) by {
            assert(front[i] == events[i]);
        }
        lemma_runs_in_submission_order(state, front);
        let before = state.replay(front);
        assert(event_fits(events[events.len() - 1]));
        lemma_after_wf(before, events.last());
        match events.last() {
            PipelineEvent::Complete(reply) => {
                if before.executed < before.units.len() {
                    lemma_drained(before);
                }
            },
            _ => {},
        }
    }
}

/// A result is kept only for a unit that has run. As units run in order, a unit whose result
/// can be fetched has run after every unit submitted before it.
pub proof fn lemma_result_means_ran(state: PipelineView, unit: nat, earlier: nat)
    requires
        state.wf(),
        first_finished(state.finished, unit) is Some,
        earlier <= unit,
    ensures
        earlier < state.executed,
{
    let i = choose|i: int| holds_first(state.finished, unit, i);
    assert(state.finished[i].unit < state.executed);
}

/// A submitted batch that has not run yet.
#[derive(Debug)]
pub struct PendingUnit {
    seq: u64,
    script: String,
    slot: SlotTable,
    awaited: bool,
}

impl View for PendingUnit {
    type V = UnitView;

    closed spec fn view(&self) -> UnitView {
        UnitView { script: self.script@, pending: self.slot@, awaited: self.awaited }
    }
}

impl PendingUnit {
    /// The unit's number in the order of submission.
    pub closed spec fn number(&self) -> nat {
        self.seq as nat
    }

    /// The unit's number in the order of submission.
    pub fn seq(&self) -> (seq: u64)
        ensures
            seq == self.number(),
    {
        self.seq
    }

    /// The unit after which this one runs: the one submitted just before it, if any.
    pub fn prior(&self) -> (prior: Option<u64>)
        ensures
            match prior {
                Some(p) => p + 1 == self.number(),
                None => self.number() == 0,
            },
    {
        if self.seq == 0 {
            None
        } else {
            Some(self.seq - 1)
        }
    }

    /// The script that the engine has to run for this unit.
    pub fn script(&self) -> (text: &str)
        ensures
            text@ == self@.script,
    {
        self.script.as_str()
    }
}

/// The answer to waiting for a unit.
#[derive(Debug)]
pub enum Waited {
    /// The unit has not run yet: the engine has to be driven further first.
    Pending,
    /// The unit ran: its sample, and the pending measurements to read it back with.
    Ready(String, SlotTable),
    /// The unit failed.
    Failed(Error),
    /// The unit is not awaited, was never submitted, or its result was fetched before.
    Unknown,
}

impl View for Waited {
    type V = WaitedView;

    open spec fn view(&self) -> WaitedView {
        match *self {
            Waited::Pending => WaitedView::Pending,
            Waited::Ready(text, table) => WaitedView::Ready(text@, table@),
            Waited::Failed(_) => WaitedView::Failed,
            Waited::Unknown => WaitedView::Unknown,
        }
    }
}

impl Waited {
    /// A table that is handed out is valid, and a failure is an `EngineError`.
    pub open spec fn wf(&self) -> bool {
        match *self {
            Waited::Ready(_, table) => table.wf(),
            Waited::Failed(e) => e == Error::EngineError,
            _ => true,
        }
    }
}

#[derive(Debug)]
struct FinishedUnit {
    seq: u64,
    slot: SlotTable,
    sample: Option<String>,
}

impl View for FinishedUnit {
    type V = FinishedView;

    closed spec fn view(&self) -> FinishedView {
        FinishedView {
            unit: self.seq as nat,
            pending: self.slot@,
            outcome: match self.sample {
                Some(text) => OutcomeView::Sample(text@),
                None => OutcomeView::Failed,
            },
        }
    }
}

/// The executor of one session.
pub struct Pipeline {
    session: BlueqatSimulator,
    queue: Vec<PendingUnit>,
    finished: Vec<FinishedUnit>,
    submitted: u64,
    executed: u64,
    broken: bool,
    units: Ghost<Seq<UnitView>>,
}

impl View for Pipeline {
    type V = PipelineView;

    closed spec fn view(&self) -> PipelineView {
        PipelineView {
            units: self.units@,
            executed: self.executed as nat,
            finished: Seq::new(self.finished@.len(), |i: int| self.finished@[i]@),
            broken: self.broken,
        }
    }
}

/// At most one place is the first to hold the result of a unit.
pub proof fn lemma_holds_first_unique(finished: Seq<FinishedView>, unit: nat, i: int, j: int)
    requires
        holds_first(finished, unit, i),
        holds_first(finished, unit, j),
    ensures
        i == j,
{
    if i < j {
        assert(finished[i].unit != unit);
    } else if j < i {
        assert(finished[j].unit != unit);
    }
}

impl Pipeline {
    /// The session that the executor holds.
    pub closed spec fn session(&self) -> BlueqatSimulator {
        self.session
    }

    /// Validity of an executor: its state is valid, and the queue holds the units that have
    /// not run, in order, as they were submitted.
    pub closed spec fn wf(&self) -> bool {
        &&& self@.wf()
        &&& self.session.wf()
        &&& self.units@.len() == self.submitted
        &&& self.executed <= self.submitted
        &&& self.queue@.len() == self.submitted - self.executed
        &&& forall|i: int|
            0 <= i < self.queue@.len() ==> (#[trigger] self.queue@[i]).seq == self.executed + i
                && self.queue@[i]@ == self.units@[self.executed + i]
    }

    /// A valid executor has a valid state and holds a valid session.
    pub proof fn lemma_wf(&self)
        requires
            self.wf(),
        ensures
            self@.wf(),
            self.session().wf(),
    {
    }

    /// An executor for `session`, with nothing submitted.
    pub fn new(session: BlueqatSimulator) -> (pipeline: Pipeline)
        requires
            session.wf(),
        ensures
            pipeline.wf(),
            pipeline.session() == session,
            pipeline@ == PipelineView::empty(),
    {
        let pipeline = Pipeline {
            session,
            queue: Vec::new(),
            finished: Vec::new(),
            submitted: 0,
            executed: 0,
            broken: false,
            units: Ghost(Seq::empty()),
        };
        assert(pipeline@.finished =~= Seq::empty());
        pipeline
    }

    /// Ends the executor and gives the session back, to be released.
    pub fn into_session(self) -> (session: BlueqatSimulator)
        ensures
            session == self.session(),
    {
        self.session
    }

    /// Number of units submitted so far.
    pub fn submitted(&self) -> (n: u64)
        requires
            self.wf(),
        ensures
            n == self@.units.len(),
    {
        self.submitted
    }

    /// Number of units that have run or failed.
    pub fn executed(&self) -> (n: u64)
        ensures
            n == self@.executed,
    {
        self.executed
    }

    /// Whether the engine was reported broken.
    pub fn is_broken(&self) -> (broken: bool)
        ensures
            broken == self@.broken,
    {
        self.broken
    }

    /// The unit that the engine has to run now: the oldest one that has not run.
    pub fn next(&self) -> (unit: Option<&PendingUnit>)
        requires
            self.wf(),
        ensures
            match unit {
                Some(u) => self@.next_unit() == Some(u.number()) && u@ == self@.units[u.number() as int],
                None => self@.next_unit() is None,
            },
    {
        if self.queue.len() > 0 {
            Some(&self.queue[0])
        } else {
            None
        }
    }

    fn finish_one(&mut self, sample: Option<String>)
        requires
            old(self).wf(),
            old(self)@.executed < old(self)@.units.len(),
        ensures
            final(self).wf(),
            final(self).session() == old(self).session(),
            final(self)@ == old(self)@.finished_one(
                match sample {
                    Some(text) => OutcomeView::Sample(text@),
                    None => OutcomeView::Failed,
                },
            ),
    {
        let unit = self.queue.remove(0);
        self.executed = self.executed + 1;
        if unit.awaited {
            let done = FinishedUnit { seq: unit.seq, slot: unit.slot, sample };
            self.finished.push(done);
            proof {
                assert(self@.finished =~= old(self)@.finished.push(done@));
            }
        } else {
            proof {
                assert(self@.finished =~= old(self)@.finished);
            }
        }
        proof {
            assert forall|i: int| 0 <= i < self.queue@.len() implies (#[trigger] self.queue@[i]).seq
                == self.executed + i && self.queue@[i]@ == self.units@[self.executed + i] by {
                assert(self.queue@[i] == old(self).queue@[i + 1]);
            }
        }
    }

    /// Submits a batch: it will run once every unit submitted before it has run.
    ///
    /// `awaited` says whether the result is kept to be waited for; a batch sent without interest
    /// in its result leaves nothing behind. Returns the unit's number.
    pub fn submit(&mut self, batch: Batch, awaited: bool) -> (unit: u64)
        requires
            old(self).wf(),
            batch.wf(),
            old(self)@.units.len() < u64::MAX,
        ensures
            final(self).wf(),
            final(self).session() == old(self).session(),
            unit == old(self)@.units.len(),
            final(self)@ == old(self)@.submitted(
                UnitView { script: script_text(batch@.ops), pending: batch@.pending, awaited },
            ),
    {
        let seq = self.submitted;
        let script = ops_to_script(batch.ops());
        let slot = *batch.slots();
        let ghost unit = UnitView { script: script@, pending: slot@, awaited };
        proof {
            self.units@ = self.units@.push(unit);
        }
        self.submitted = self.submitted + 1;
        if self.broken {
            self.executed = self.executed + 1;
            if awaited {
                let done = FinishedUnit { seq, slot, sample: None };
                self.finished.push(done);
                proof {
                    assert(self@.finished =~= old(self)@.finished.push(done@));
                }
            } else {
                proof {
                    assert(self@.finished =~= old(self)@.finished);
                }
            }
        } else {
            self.queue.push(PendingUnit { seq, script, slot, awaited });
            proof {
                assert(self@.finished =~= old(self)@.finished);
            }
        }
        seq
    }

    /// Takes the engine's answer for the unit that was running.
    ///
    /// A sample or a failure ends that unit alone. A broken engine fails every unit that has
    /// not run, and every unit submitted later. Without a unit to run nothing changes.
    pub fn complete(&mut self, reply: EngineReply)
        requires
            old(self).wf(),
        ensures
            final(self).wf(),
            final(self).session() == old(self).session(),
            final(self)@ == old(self)@.completed(reply@),
    {
        if self.queue.len() == 0 {
            return ;
        }
        match reply {
            EngineReply::Sample(text) => {
                self.finish_one(Some(text));
            },
            EngineReply::Failed => {
                self.finish_one(None);
            },
            EngineReply::Broken => {
                while self.queue.len() > 0
                    invariant
                        self.wf(),
                        !self.broken,
                        self.session() == old(self).session(),
                        self@.drained() == old(self)@.drained(),
                    decreases self.queue@.len(),
                {
                    self.finish_one(None);
                }
                self.broken = true;
                proof {
                    assert(self@.finished =~= old(self)@.drained().finished);
                }
            },
        }
    }

    /// Waits for `unit`: hands out its result if it has run, and says so if it has not.
    pub fn wait(&mut self, unit: u64) -> (waited: Waited)
        requires
            old(self).wf(),
        ensures
            final(self).wf(),
            final(self).session() == old(self).session(),
            waited.wf(),
            (final(self)@, waited@) == old(self)@.waited(unit as nat),
    {
        let mut i: usize = 0;
        while i < self.finished.len()
            invariant
                i <= self.finished@.len(),
                self.wf(),
                *self == *old(self),
                forall|j: int| 0 <= j < i ==> (#[trigger] self@.finished[j]).unit != unit,
            decreases self.finished@.len() - i,
        {
            if self.finished[i].seq == unit {
                proof {
                    assert(holds_first(self@.finished, unit as nat, i as int));
                    let chosen = choose|k: int| holds_first(self@.finished, unit as nat, k);
                    lemma_holds_first_unique(self@.finished, unit as nat, i as int, chosen);
                }
                let done = self.finished.remove(i);
                proof {
                    assert(self@.finished =~= old(self)@.finished.remove(i as int));
                }
                return match done.sample {
                    Some(text) => Waited::Ready(text, done.slot),
                    None => Waited::Failed(Error::EngineError),
                };
            }
            i += 1;
        }
        proof {
            assert forall|k: int| !holds_first(self@.finished, unit as nat, k) by {
                if 0 <= k < self@.finished.len() {
                    assert(self@.finished[k].unit != unit);
                }
            }
        }
        if unit >= self.executed && unit < self.submitted {
            let ahead = unit - self.executed;
            let queued = self.queue.len();
            assert(ahead < queued);
            let place = ahead as usize;
            assert(self.queue@[place as int]@ == self.units@[unit as int]);
            if self.queue[place].awaited {
                Waited::Pending
            } else {
                Waited::Unknown
            }
        } else {
            Waited::Unknown
        }
    }
}

} // verus!
