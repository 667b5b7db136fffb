//! The operation buffer: the operations built since the last flush, with the measurements that
//! are pending among them.

use crate::error::Error;
use crate::operation::{raw_pyscript, BinaryGate, Operation, OperationView, UnaryGate};
use crate::slots::{assigned, within_capacity, SlotTable, QUBIT_COUNT, SLOT_COUNT};
use vstd::prelude::*;

verus! {

/// What a buffer or a flushed batch holds.
pub struct BufferView {
    /// The operations, oldest first.
    pub ops: Seq<OperationView>,
    /// The slot of each qubit that is measured among them.
    pub pending: Map<u32, u32>,
}

impl BufferView {
    /// Nothing buffered.
    pub open spec fn empty() -> BufferView {
        BufferView { ops: Seq::empty(), pending: Map::empty() }
    }

    /// A fresh circuit: whatever was buffered is dropped, `Init` alone stands.
    pub open spec fn initialized() -> BufferView {
        BufferView { ops: seq![OperationView::Init], pending: Map::empty() }
    }

    /// One more operation that measures nothing.
    pub open spec fn appended(self, op: OperationView) -> BufferView {
        BufferView { ops: self.ops.push(op), pending: self.pending }
    }

    /// More operations that measure nothing.
    pub open spec fn extended(self, more: Seq<OperationView>) -> BufferView {
        BufferView { ops: self.ops + more, pending: self.pending }
    }

    /// Whether `qubit` may be measured: it has no pending slot.
    pub open spec fn measurable(self, qubit: u32) -> bool {
        !self.pending.dom().contains(qubit)
    }

    /// One more measurement, of `qubit` into `slot`.
    pub open spec fn measured(self, qubit: u32, slot: u32) -> BufferView {
        BufferView {
            ops: self.ops.push(OperationView::Measure(qubit, slot)),
            pending: self.pending.insert(qubit, slot),
        }
    }

    /// What measuring `qubit` into `slot` leads to: the measurement is appended, or the call
    /// fails with `SlotConflict` and changes nothing.
    pub open spec fn measure(self, qubit: u32, slot: u32) -> (BufferView, Result<(), Error>) {
        if self.measurable(qubit) {
            (self.measured(qubit, slot), Ok(()))
        } else {
            (self, Err(Error::SlotConflict))
        }
    }

    /// What one call that neither flushes nor starts a fresh circuit leads to.
    pub open spec fn after(self, call: BufferCall) -> BufferView {
        match call {
            BufferCall::Gate(op) => self.appended(op),
            BufferCall::Measure(qubit, slot) => self.measure(qubit, slot).0,
        }
    }

    /// What a sequence of such calls leads to.
    pub open spec fn replay(self, calls: Seq<BufferCall>) -> BufferView
        decreases calls.len(),
    {
        if calls.len() == 0 {
            self
        } else {
            self.replay(calls.drop_last()).after(calls.last())
        }
    }

    /// The pending table is the one that the operations give, and lies within capacity.
    pub open spec fn wf(self) -> bool {
        &&& assigned(Map::empty(), self.ops) == Some(self.pending)
        &&& within_capacity(self.pending)
    }
}

/// A call on a buffer that keeps what is buffered: a gate or raw line is appended, or a
/// measurement is asked for.
pub enum BufferCall {
    Gate(OperationView),
    Measure(u32, u32),
}

/// A qubit that was measured in a buffer cannot be measured again before the buffer is flushed
/// or started afresh: whatever calls come in between, the second measurement fails with
/// `SlotConflict` and changes nothing.
pub proof fn lemma_second_measure_conflicts(
    buffer: BufferView,
    qubit: u32,
    first: u32,
    between: Seq<BufferCall>,
    second: u32,
)
    requires
        buffer.measure(qubit, first).1 is Ok,
    ensures
        ({
            let later = buffer.measure(qubit, first).0.replay(between);
            later.measure(qubit, second) == (later, Err::<(), Error>(Error::SlotConflict))
        }),
    decreases between.len(),
{
    if between.len() > 0 {
        lemma_second_measure_conflicts(buffer, qubit, first, between.drop_last(), second);
    }
}

/// Operations built by client code between two flushes.
#[derive(Debug)]
pub struct BlueqatOperations {
    ops: Vec<Operation>,
    slot: SlotTable,
}

/// The operations and the pending table moved out of a buffer by one flush.
#[derive(Debug)]
pub struct Batch {
    ops: Vec<Operation>,
    slot: SlotTable,
}

impl View for Batch {
    type V = BufferView;

    closed spec fn view(&self) -> BufferView {
        BufferView { ops: self.ops.deep_view(), pending: self.slot@ }
    }
}

impl Batch {
    /// Validity of a batch.
    pub open spec fn wf(&self) -> bool {
        self@.wf()
    }

    /// The operations of the batch, oldest first.
    pub fn ops(&self) -> (ops: &[Operation])
        ensures
            ops.deep_view() == self@.ops,
    {
        let ops = self.ops.as_slice();
        assert(ops.deep_view() =~= self.ops.deep_view());
        ops
    }

    /// The pending measurements as they stood when the batch was flushed.
    pub fn slots(&self) -> (table: &SlotTable)
        ensures
            table@ == self@.pending,
    {
        &self.slot
    }

    /// Number of operations in the batch.
    pub fn len(&self) -> (n: usize)
        ensures
            n == self@.ops.len(),
    {
        self.ops.len()
    }
}

impl View for BlueqatOperations {
    type V = BufferView;

    closed spec fn view(&self) -> BufferView {
        BufferView { ops: self.ops.deep_view(), pending: self.slot@ }
    }
}

/// Pushing one value onto a vector pushes its view onto the vector's deep view.
proof fn lemma_push_deep_view(before: Seq<Operation>, after: Seq<Operation>, op: Operation)
    requires
        after == before.push(op),
    ensures
        Seq::new(after.len(), |i: int| after[i].deep_view()) == Seq::new(
            before.len(),
            |i: int| before[i].deep_view(),
        ).push(op@),
{
    assert(Seq::new(after.len(), |i: int| after[i].deep_view()) =~= Seq::new(
        before.len(),
        |i: int| before[i].deep_view(),
    ).push(op@));
}

impl BlueqatOperations {
    /// Validity of a buffer.
    pub open spec fn wf(&self) -> bool {
        self@.wf()
    }

    /// An empty buffer.
    pub fn new() -> (buffer: BlueqatOperations)
        ensures
            buffer.wf(),
            buffer@ == BufferView::empty(),
    {
        let buffer = BlueqatOperations { ops: Vec::new(), slot: SlotTable::new() };
        assert(buffer.ops.deep_view() =~= Seq::empty());
        buffer
    }

    /// Number of buffered operations.
    pub fn len(&self) -> (n: usize)
        ensures
            n == self@.ops.len(),
    {
        self.ops.len()
    }

    /// The buffered operations, oldest first.
    pub fn as_slice(&self) -> (ops: &[Operation])
        ensures
            ops.deep_view() == self@.ops,
    {
        let ops = self.ops.as_slice();
        assert(ops.deep_view() =~= self.ops.deep_view());
        ops
    }

    /// The slot that `qubit` is pending into, if it is measured among the buffered operations.
    pub fn pending_slot(&self, qubit: u32) -> (slot: Option<u32>)
        ensures
            match slot {
                Some(s) => self@.pending.dom().contains(qubit) && self@.pending[qubit] == s,
                None => !self@.pending.dom().contains(qubit),
            },
    {
        self.slot.get(qubit)
    }

    fn append(&mut self, op: Operation)
        requires
            old(self).wf(),
            !(op@ is Measure),
        ensures
            final(self).wf(),
            final(self)@ == old(self)@.appended(op@),
    {
        proof {
            lemma_push_deep_view(self.ops@, self.ops@.push(op), op);
        }
        self.ops.push(op);
        proof {
            assert(self@.ops.drop_last() =~= old(self)@.ops);
        }
    }

    /// Drops what is buffered and starts a fresh circuit with `Init`.
    pub fn initialize(&mut self)
        ensures
            final(self).wf(),
            final(self)@ == BufferView::initialized(),
    {
        self.ops = Vec::new();
        self.slot = SlotTable::new();
        proof {
            lemma_push_deep_view(self.ops@, self.ops@.push(Operation::Init), Operation::Init);
        }
        self.ops.push(Operation::Init);
        proof {
            assert(self@.ops =~= seq![OperationView::Init]);
            assert(self@.ops.drop_last() =~= Seq::<OperationView>::empty());
            reveal_with_fuel(assigned, 2);
        }
    }

    /// Appends `gate` on `qubit`.
    pub fn unary(&mut self, gate: UnaryGate, qubit: u32)
        requires
            old(self).wf(),
        ensures
            final(self).wf(),
            final(self)@ == old(self)@.appended(OperationView::Unary(gate, qubit)),
    {
        self.append(Operation::Unary(gate, qubit));
    }

    /// Appends `gate` on the qubits `control` and `target`.
    pub fn binary(&mut self, gate: BinaryGate, control: u32, target: u32)
        requires
            old(self).wf(),
        ensures
            final(self).wf(),
            final(self)@ == old(self)@.appended(OperationView::Binary(gate, control, target)),
    {
        self.append(Operation::Binary(gate, control, target));
    }

    /// Appends `x` on `qubit`.
    pub fn x(&mut self, qubit: u32)
        requires
            old(self).wf(),
        ensures
            final(self).wf(),
            final(self)@ == old(self)@.appended(OperationView::Unary(UnaryGate::X, qubit)),
    {
        self.unary(UnaryGate::X, qubit);
    }

    /// Appends `y` on `qubit`.
    pub fn y(&mut self, qubit: u32)
        requires
            old(self).wf(),
        ensures
            final(self).wf(),
            final(self)@ == old(self)@.appended(OperationView::Unary(UnaryGate::Y, qubit)),
    {
        self.unary(UnaryGate::Y, qubit);
    }

    /// Appends `z` on `qubit`.
    pub fn z(&mut self, qubit: u32)
        requires
            old(self).wf(),
        ensures
            final(self).wf(),
            final(self)@ == old(self)@.appended(OperationView::Unary(UnaryGate::Z, qubit)),
    {
        self.unary(UnaryGate::Z, qubit);
    }

    /// Appends `h` on `qubit`.
    pub fn h(&mut self, qubit: u32)
        requires
            old(self).wf(),
        ensures
            final(self).wf(),
            final(self)@ == old(self)@.appended(OperationView::Unary(UnaryGate::H, qubit)),
    {
        self.unary(UnaryGate::H, qubit);
    }

    /// Appends `s` on `qubit`.
    pub fn s(&mut self, qubit: u32)
        requires
            old(self).wf(),
        ensures
            final(self).wf(),
            final(self)@ == old(self)@.appended(OperationView::Unary(UnaryGate::S, qubit)),
    {
        self.unary(UnaryGate::S, qubit);
    }

    /// Appends `sdg` on `qubit`.
    pub fn sdg(&mut self, qubit: u32)
        requires
            old(self).wf(),
        ensures
            final(self).wf(),
            final(self)@ == old(self)@.appended(OperationView::Unary(UnaryGate::Sdg, qubit)),
    {
        self.unary(UnaryGate::Sdg, qubit);
    }

    /// Appends `t` on `qubit`.
    pub fn t(&mut self, qubit: u32)
        requires
            old(self).wf(),
        ensures
            final(self).wf(),
            final(self)@ == old(self)@.appended(OperationView::Unary(UnaryGate::T, qubit)),
    {
        self.unary(UnaryGate::T, qubit);
    }

    /// Appends `tdg` on `qubit`.
    pub fn tdg(&mut self, qubit: u32)
        requires
            old(self).wf(),
        ensures
            final(self).wf(),
            final(self)@ == old(self)@.appended(OperationView::Unary(UnaryGate::Tdg, qubit)),
    {
        self.unary(UnaryGate::Tdg, qubit);
    }

    /// Appends the controlled-X from `control` to `target`.
    pub fn cx(&mut self, control: u32, target: u32)
        requires
            old(self).wf(),
        ensures
            final(self).wf(),
            final(self)@ == old(self)@.appended(
                OperationView::Binary(BinaryGate::Cx, control, target),
            ),
    {
        self.binary(BinaryGate::Cx, control, target);
    }

    /// Appends the measurement of `qubit` into `slot`.
    ///
    /// Fails with `SlotConflict`, and changes nothing, if `qubit` is measured already among the
    /// buffered operations.
    pub fn measure(&mut self, qubit: u32, slot: u32) -> (done: Result<(), Error>)
        requires
            old(self).wf(),
            qubit < QUBIT_COUNT,
            slot < SLOT_COUNT,
        ensures
            final(self).wf(),
            (final(self)@, done) == old(self)@.measure(qubit, slot),
    {
        match self.slot.assign(qubit, slot) {
            Err(e) => Err(e),
            Ok(()) => {
                let op = Operation::Measure(qubit, slot);
                proof {
                    lemma_push_deep_view(self.ops@, self.ops@.push(op), op);
                }
                self.ops.push(op);
                proof {
                    assert(self@.ops.drop_last() =~= old(self)@.ops);
                }
                Ok(())
            },
        }
    }

    /// Moves the buffered operations and their pending table out, and leaves the buffer empty.
    pub fn flush(&mut self) -> (batch: Batch)
        requires
            old(self).wf(),
        ensures
            batch.wf(),
            batch@ == old(self)@,
            final(self).wf(),
            final(self)@ == BufferView::empty(),
    {
        let mut ops = Vec::new();
        std::mem::swap(&mut ops, &mut self.ops);
        let slot = self.slot;
        self.slot = SlotTable::new();
        proof {
            assert(self.ops.deep_view() =~= Seq::empty());
        }
        Batch { ops, slot }
    }
}

/// Buffers that take raw script lines.
pub trait RawScriptGate {
    /// Validity of the receiver.
    spec fn raw_ready(&self) -> bool;

    /// The script lines handed over so far, with the raw ones as they were given.
    spec fn raw_lines(&self) -> Seq<OperationView>;

    /// Appends the operation that hands `s` to the engine as one line of script.
    fn raw_pyscript(&mut self, s: String)
        requires
            old(self).raw_ready(),
        ensures
            final(self).raw_ready(),
            final(self).raw_lines() == old(self).raw_lines().push(OperationView::Raw(s@)),
    ;
}

impl RawScriptGate for BlueqatOperations {
    open spec fn raw_ready(&self) -> bool {
        self.wf()
    }

    open spec fn raw_lines(&self) -> Seq<OperationView> {
        self@.ops
    }

    fn raw_pyscript(&mut self, s: String)
        ensures
            final(self)@ == old(self)@.appended(OperationView::Raw(s@)),
    {
        self.append(raw_pyscript(s));
    }
}

} // verus!
