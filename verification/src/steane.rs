//! The Steane-code layer: logical qubits of seven physical qubits each, and the cycle that
//! measures their syndrome and corrects one error of each type.
//!
//! The layer talks to no engine. It fills a buffer, hands out batches to send, and is told what
//! came back.

use crate::buffer::{Batch, BlueqatOperations, BufferView};
use crate::error::Error;
use crate::measured::BlueqatMeasured;
use crate::operation::{BinaryGate, OperationView, UnaryGate};
use vstd::prelude::*;

verus! {

/// Physical qubits per logical qubit.
pub const PHYSICAL_PER_LOGICAL: u32 = 7;

/// Ancilla qubits, shared by all logical qubits: three for each type of check.
pub const MEASURE_ANCILLA_QUBITS: u32 = 6;

/// Most logical qubits a layer can hold: with the ancillas they fill the engine's 64 qubits.
pub const MAX_LOGICAL_QUBITS: u8 = 8;

/// From the X-syndrome, the first three syndrome bits as a number, to the offset of the qubit
/// to correct with `x`. Entry 0 is never read.
pub const ERR_TABLE_X: [u32; 8] = [999, 0, 1, 6, 2, 4, 3, 5];

/// From the Z-syndrome, the last three syndrome bits as a number, to the offset of the qubit
/// to correct with `z`. Entry 0 is never read.
pub const ERR_TABLE_Z: [u32; 8] = [999, 3, 4, 6, 5, 0, 1, 2];

/// For each offset, the X-stabilizer checks it takes part in: bit `a` stands for ancilla `a`.
pub const X_CHECKS: [u8; 7] = [1, 2, 4, 6, 5, 7, 3];

/// For each offset, the Z-stabilizer checks it takes part in: bit `a` stands for ancilla
/// `3 + a`.
pub const Z_CHECKS: [u8; 7] = [5, 6, 7, 1, 2, 4, 3];

/// The controlled-X from `control` to `target`.
pub open spec fn cx_op(control: int, target: int) -> OperationView {
    OperationView::Binary(BinaryGate::Cx, control as u32, target as u32)
}

/// `gate` on each of the seven physical qubits from `base` on.
pub open spec fn transversal(gate: UnaryGate, base: int) -> Seq<OperationView> {
    Seq::new(7, |j: int| OperationView::Unary(gate, (base + j) as u32))
}

/// Controlled-X between the physical qubits of two logical qubits, offset by offset.
pub open spec fn transversal_cx(control_base: int, target_base: int) -> Seq<OperationView> {
    Seq::new(7, |j: int| cx_op(control_base + j, target_base + j))
}

/// The controlled-X gates from one data qubit to the ancillas that `mask` names, lowest first.
pub open spec fn parity_links(qubit: int, ancilla: int, mask: u8) -> Seq<OperationView> {
    (if mask % 2 == 1 {
        seq![cx_op(qubit, ancilla)]
    } else {
        Seq::empty()
    }) + (if (mask / 2) % 2 == 1 {
        seq![cx_op(qubit, ancilla + 1)]
    } else {
        Seq::empty()
    }) + (if (mask / 4) % 2 == 1 {
        seq![cx_op(qubit, ancilla + 2)]
    } else {
        Seq::empty()
    })
}

/// The links of the data qubits from `base` on, one mask per qubit, in qubit order.
pub open spec fn parity_checks(base: int, ancilla: int, masks: Seq<u8>) -> Seq<OperationView>
    decreases masks.len(),
{
    if masks.len() == 0 {
        Seq::empty()
    } else {
        parity_checks(base, ancilla, masks.drop_last()) + parity_links(
            base + masks.len() - 1,
            ancilla,
            masks.last(),
        )
    }
}

/// The measurement of each ancilla into the slot with the ancilla's own index.
pub open spec fn ancilla_measures(first_ancilla: int) -> Seq<OperationView> {
    Seq::new(
        6,
        |j: int| OperationView::Measure((first_ancilla + j) as u32, (first_ancilla + j) as u32),
    )
}

/// The circuit that extracts the syndrome of the logical qubit whose physical qubits start at
/// `base`: the X-stabilizer checks between two layers of Hadamard gates, the Z-stabilizer checks,
/// and the measurement of the six ancillas.
pub open spec fn syndrome_circuit(base: int, first_ancilla: int) -> Seq<OperationView> {
    transversal(UnaryGate::H, base) + parity_checks(base, first_ancilla, X_CHECKS@) + transversal(
        UnaryGate::H,
        base,
    ) + parity_checks(base, first_ancilla + 3, Z_CHECKS@) + ancilla_measures(first_ancilla)
}

/// A bit as a number.
pub open spec fn bit_value(bit: bool) -> nat {
    if bit {
        1
    } else {
        0
    }
}

/// The X-syndrome: the bits of ancillas 0 to 2 as a number, ancilla 0 the least significant.
pub open spec fn x_syndrome(measured: Seq<bool>, first_ancilla: int) -> nat {
    bit_value(measured[first_ancilla]) + 2 * bit_value(measured[first_ancilla + 1]) + 4
        * bit_value(measured[first_ancilla + 2])
}

/// The Z-syndrome: the bits of ancillas 3 to 5 as a number, ancilla 3 the least significant.
pub open spec fn z_syndrome(measured: Seq<bool>, first_ancilla: int) -> nat {
    bit_value(measured[first_ancilla + 3]) + 2 * bit_value(measured[first_ancilla + 4]) + 4
        * bit_value(measured[first_ancilla + 5])
}

/// An `x` on each of the first `count` ancillas that was measured as one, in ancilla order.
pub open spec fn ancilla_resets(measured: Seq<bool>, first_ancilla: int, count: nat) -> Seq<
    OperationView,
>
    decreases count,
{
    if count == 0 {
        Seq::empty()
    } else {
        ancilla_resets(measured, first_ancilla, (count - 1) as nat) + (if measured[first_ancilla
            + count - 1] {
            seq![OperationView::Unary(UnaryGate::X, (first_ancilla + count - 1) as u32)]
        } else {
            Seq::empty()
        })
    }
}

/// At most one `x` and one `z`, on the qubits that the two halves of the syndrome decode to.
pub open spec fn corrections(measured: Seq<bool>, base: int, first_ancilla: int) -> Seq<
    OperationView,
> {
    let xs = x_syndrome(measured, first_ancilla) as int;
    let zs = z_syndrome(measured, first_ancilla) as int;
    (if xs != 0 {
        seq![OperationView::Unary(UnaryGate::X, (base + ERR_TABLE_X@[xs]) as u32)]
    } else {
        Seq::empty()
    }) + (if zs != 0 {
        seq![OperationView::Unary(UnaryGate::Z, (base + ERR_TABLE_Z@[zs]) as u32)]
    } else {
        Seq::empty()
    })
}

/// What follows the read-back of one syndrome: the ancillas are reset, then the correction.
pub open spec fn recovery_ops(measured: Seq<bool>, base: int, first_ancilla: int) -> Seq<
    OperationView,
> {
    ancilla_resets(measured, first_ancilla, 6) + corrections(measured, base, first_ancilla)
}

/// The two decode tables send the seven syndromes that are not zero to seven different offsets,
/// all within a logical qubit, and each undoes the checks: the syndrome that an error on one
/// offset raises decodes to that offset.
pub proof fn lemma_decode_tables()
    ensures
        forall|s: int| 1 <= s < 8 ==> 0 <= #[trigger] ERR_TABLE_X@[s] < 7,
        forall|s: int| 1 <= s < 8 ==> 0 <= #[trigger] ERR_TABLE_Z@[s] < 7,
        forall|a: int, b: int|
            1 <= a < 8 && 1 <= b < 8 && a != b ==> #[trigger] ERR_TABLE_X@[a]
                != #[trigger] ERR_TABLE_X@[b],
        forall|a: int, b: int|
            1 <= a < 8 && 1 <= b < 8 && a != b ==> #[trigger] ERR_TABLE_Z@[a]
                != #[trigger] ERR_TABLE_Z@[b],
        forall|k: int|
            0 <= k < 7 ==> 1 <= #[trigger] X_CHECKS@[k] < 8 && ERR_TABLE_X@[X_CHECKS@[k] as int]
                == k,
        forall|k: int|
            0 <= k < 7 ==> 1 <= #[trigger] Z_CHECKS@[k] < 8 && ERR_TABLE_Z@[Z_CHECKS@[k] as int]
                == k,
{
    assert(ERR_TABLE_X@ =~= seq![999u32, 0, 1, 6, 2, 4, 3, 5]);
    assert(ERR_TABLE_Z@ =~= seq![999u32, 3, 4, 6, 5, 0, 1, 2]);
    assert(X_CHECKS@ =~= seq![1u8, 2, 4, 6, 5, 7, 3]);
    assert(Z_CHECKS@ =~= seq![5u8, 6, 7, 1, 2, 4, 3]);
}

/// A syndrome of zero leads to no operation at all: no ancilla is reset and nothing is
/// corrected.
pub proof fn lemma_zero_syndrome_corrects_nothing(
    measured: Seq<bool>,
    base: int,
    first_ancilla: int,
)
    requires
        x_syndrome(measured, first_ancilla) == 0,
        z_syndrome(measured, first_ancilla) == 0,
    ensures
        recovery_ops(measured, base, first_ancilla) == Seq::<OperationView>::empty(),
{
    reveal_with_fuel(ancilla_resets, 7);
    assert(recovery_ops(measured, base, first_ancilla) =~= Seq::<OperationView>::empty());
}

/// If the X-syndrome is the pattern of X-stabilizer checks that the qubit at `offset` takes part
/// in, and the Z-syndrome is zero, the correction is one `x` on that qubit; likewise for the
/// Z-syndrome and one `z`.
pub proof fn lemma_corrects_marked_qubit(
    measured: Seq<bool>,
    base: int,
    first_ancilla: int,
    offset: int,
)
    requires
        0 <= offset < 7,
    ensures
        x_syndrome(measured, first_ancilla) == X_CHECKS@[offset] && z_syndrome(
            measured,
            first_ancilla,
        ) == 0 ==> corrections(measured, base, first_ancilla) == seq![
            OperationView::Unary(UnaryGate::X, (base + offset) as u32),
        ],
        x_syndrome(measured, first_ancilla) == 0 && z_syndrome(measured, first_ancilla)
            == Z_CHECKS@[offset] ==> corrections(measured, base, first_ancilla) == seq![
            OperationView::Unary(UnaryGate::Z, (base + offset) as u32),
        ],
{
    lemma_decode_tables();
    let found = corrections(measured, base, first_ancilla);
    if x_syndrome(measured, first_ancilla) == X_CHECKS@[offset] && z_syndrome(
        measured,
        first_ancilla,
    ) == 0 {
        assert(found =~= seq![OperationView::Unary(UnaryGate::X, (base + offset) as u32)]);
    }
    if x_syndrome(measured, first_ancilla) == 0 && z_syndrome(measured, first_ancilla)
        == Z_CHECKS@[offset] {
        assert(found =~= seq![OperationView::Unary(UnaryGate::Z, (base + offset) as u32)]);
    }
}

/// No physical qubit of the logical qubit that starts at `base` has a pending measurement.
pub open spec fn block_measurable(buffer: BufferView, base: int) -> bool {
    forall|p: u32| base <= p < base + 7 ==> !#[trigger] buffer.pending.dom().contains(p)
}

/// The buffer after the first `count` physical qubits from `qubit_base` on are measured, each
/// into the slot of the same offset from `slot_base` on.
pub open spec fn measured_block(
    buffer: BufferView,
    qubit_base: int,
    slot_base: int,
    count: nat,
) -> BufferView
    decreases count,
{
    if count == 0 {
        buffer
    } else {
        measured_block(buffer, qubit_base, slot_base, (count - 1) as nat).measured(
            (qubit_base + count - 1) as u32,
            (slot_base + count - 1) as u32,
        )
    }
}

fn append_transversal(ops: &mut BlueqatOperations, gate: UnaryGate, base: u32)
    requires
        old(ops).wf(),
        base <= 0xffff,
    ensures
        final(ops).wf(),
        final(ops)@ == old(ops)@.extended(transversal(gate, base as int)),
{
    let ghost all = transversal(gate, base as int);
    let mut j: u32 = 0;
    proof {
        assert(ops@.ops =~= old(ops)@.ops + all.take(0));
    }
    while j < PHYSICAL_PER_LOGICAL
        invariant
            j <= PHYSICAL_PER_LOGICAL,
            base <= 0xffff,
            all == transversal(gate, base as int),
            ops.wf(),
            ops@ == old(ops)@.extended(all.take(j as int)),
        decreases PHYSICAL_PER_LOGICAL - j,
    {
        ops.unary(gate, base + j);
        proof {
            assert(all.take(j + 1) =~= all.take(j as int).push(all[j as int]));
            assert(ops@.ops =~= old(ops)@.ops + all.take(j + 1));
        }
        j += 1;
    }
    proof {
        assert(all.take(7) =~= all);
    }
}

fn append_transversal_cx(ops: &mut BlueqatOperations, control_base: u32, target_base: u32)
    requires
        old(ops).wf(),
        control_base <= 0xffff,
        target_base <= 0xffff,
    ensures
        final(ops).wf(),
        final(ops)@ == old(ops)@.extended(
            transversal_cx(control_base as int, target_base as int),
        ),
{
    let ghost all = transversal_cx(control_base as int, target_base as int);
    let mut j: u32 = 0;
    proof {
        assert(ops@.ops =~= old(ops)@.ops + all.take(0));
    }
    while j < PHYSICAL_PER_LOGICAL
        invariant
            j <= PHYSICAL_PER_LOGICAL,
            control_base <= 0xffff,
            target_base <= 0xffff,
            all == transversal_cx(control_base as int, target_base as int),
            ops.wf(),
            ops@ == old(ops)@.extended(all.take(j as int)),
        decreases PHYSICAL_PER_LOGICAL - j,
    {
        ops.binary(BinaryGate::Cx, control_base + j, target_base + j);
        proof {
            assert(all.take(j + 1) =~= all.take(j as int).push(all[j as int]));
            assert(ops@.ops =~= old(ops)@.ops + all.take(j + 1));
        }
        j += 1;
    }
    proof {
        assert(all.take(7) =~= all);
    }
}

fn append_links(ops: &mut BlueqatOperations, qubit: u32, ancilla: u32, mask: u8)
    requires
        old(ops).wf(),
        qubit <= 0xffff,
        ancilla <= 0xffff,
    ensures
        final(ops).wf(),
        final(ops)@ == old(ops)@.extended(parity_links(qubit as int, ancilla as int, mask)),
{
    let ghost start = ops@;
    if mask % 2 == 1 {
        ops.binary(BinaryGate::Cx, qubit, ancilla);
    }
    let ghost first = ops@;
    if (mask / 2) % 2 == 1 {
        ops.binary(BinaryGate::Cx, qubit, ancilla + 1);
    }
    let ghost second = ops@;
    if (mask / 4) % 2 == 1 {
        ops.binary(BinaryGate::Cx, qubit, ancilla + 2);
    }
    proof {
        let a: Seq<OperationView> = if mask % 2 == 1 {
            seq![cx_op(qubit as int, ancilla as int)]
        } else {
            Seq::empty()
        };
        let b: Seq<OperationView> = if (mask / 2) % 2 == 1 {
            seq![cx_op(qubit as int, ancilla + 1)]
        } else {
            Seq::empty()
        };
        let c: Seq<OperationView> = if (mask / 4) % 2 == 1 {
            seq![cx_op(qubit as int, ancilla + 2)]
        } else {
            Seq::empty()
        };
        assert(first.ops =~= start.ops + a);
        assert(second.ops =~= start.ops + a + b);
        assert(ops@.ops =~= start.ops + (a + b + c));
    }
}

fn append_checks(ops: &mut BlueqatOperations, base: u32, ancilla: u32, masks: &[u8; 7])
    requires
        old(ops).wf(),
        base <= 0xff00,
        ancilla <= 0xff00,
    ensures
        final(ops).wf(),
        final(ops)@ == old(ops)@.extended(parity_checks(base as int, ancilla as int, masks@)),
{
    let mut k: u32 = 0;
    proof {
        assert(ops@.ops =~= old(ops)@.ops + parity_checks(
            base as int,
            ancilla as int,
            masks@.take(0),
        ));
    }
    while k < PHYSICAL_PER_LOGICAL
        invariant
            k <= PHYSICAL_PER_LOGICAL,
            base <= 0xff00,
            ancilla <= 0xff00,
            ops.wf(),
            ops@ == old(ops)@.extended(
                parity_checks(base as int, ancilla as int, masks@.take(k as int)),
            ),
        decreases PHYSICAL_PER_LOGICAL - k,
    {
        let mask = masks[k as usize];
        append_links(ops, base + k, ancilla, mask);
        proof {
            let now = masks@.take(k + 1);
            assert(now.drop_last() =~= masks@.take(k as int));
            assert(now.last() == mask);
            assert(ops@.ops =~= old(ops)@.ops + parity_checks(base as int, ancilla as int, now));
        }
        k += 1;
    }
    proof {
        assert(masks@.take(7) =~= masks@);
    }
}

fn append_ancilla_measures(ops: &mut BlueqatOperations, first_ancilla: u32)
    requires
        old(ops).wf(),
        first_ancilla + MEASURE_ANCILLA_QUBITS <= 64,
        forall|q: u32|
            first_ancilla <= q < first_ancilla + MEASURE_ANCILLA_QUBITS ==> old(ops)@.measurable(
                q,
            ),
    ensures
        final(ops).wf(),
        final(ops)@.ops == old(ops)@.ops + ancilla_measures(first_ancilla as int),
{
    let ghost all = ancilla_measures(first_ancilla as int);
    let mut j: u32 = 0;
    proof {
        assert(ops@.ops =~= old(ops)@.ops + all.take(0));
    }
    while j < MEASURE_ANCILLA_QUBITS
        invariant
            j <= MEASURE_ANCILLA_QUBITS,
            first_ancilla + MEASURE_ANCILLA_QUBITS <= 64,
            all == ancilla_measures(first_ancilla as int),
            ops.wf(),
            ops@.ops == old(ops)@.ops + all.take(j as int),
            forall|q: u32|
                first_ancilla + j <= q < first_ancilla + MEASURE_ANCILLA_QUBITS ==> ops@.measurable(
                    q,
                ),
        decreases MEASURE_ANCILLA_QUBITS - j,
    {
        let ghost before = ops@;
        assert(before.measurable((first_ancilla + j) as u32));
        let done = ops.measure(first_ancilla + j, first_ancilla + j);
        proof {
            assert(done is Ok);
            assert(all.take(j + 1) =~= all.take(j as int).push(all[j as int]));
            assert(ops@.ops =~= old(ops)@.ops + all.take(j + 1));
            assert forall|q: u32|
                first_ancilla + j + 1 <= q < first_ancilla
                    + MEASURE_ANCILLA_QUBITS implies ops@.measurable(q) by {
                assert(before.measurable(q));
            }
        }
        j += 1;
    }
    proof {
        assert(all.take(6) =~= all);
    }
}

fn append_resets(ops: &mut BlueqatOperations, measured: &BlueqatMeasured, first_ancilla: u32)
    requires
        old(ops).wf(),
        first_ancilla + MEASURE_ANCILLA_QUBITS <= 64,
    ensures
        final(ops).wf(),
        final(ops)@ == old(ops)@.extended(ancilla_resets(measured@, first_ancilla as int, 6)),
{
    let mut j: u32 = 0;
    proof {
        assert(ops@.ops =~= old(ops)@.ops + ancilla_resets(measured@, first_ancilla as int, 0));
    }
    while j < MEASURE_ANCILLA_QUBITS
        invariant
            j <= MEASURE_ANCILLA_QUBITS,
            first_ancilla + MEASURE_ANCILLA_QUBITS <= 64,
            ops.wf(),
            ops@ == old(ops)@.extended(
                ancilla_resets(measured@, first_ancilla as int, j as nat),
            ),
        decreases MEASURE_ANCILLA_QUBITS - j,
    {
        if measured.get(first_ancilla + j) {
            ops.unary(UnaryGate::X, first_ancilla + j);
        }
        proof {
            assert(ops@.ops =~= old(ops)@.ops + ancilla_resets(
                measured@,
                first_ancilla as int,
                (j + 1) as nat,
            ));
        }
        j += 1;
    }
}

fn bit(measured: &BlueqatMeasured, slot: u32) -> (value: usize)
    requires
        slot < 64,
    ensures
        value == bit_value(measured@[slot as int]),
{
    if measured.get(slot) {
        1
    } else {
        0
    }
}

fn append_corrections(
    ops: &mut BlueqatOperations,
    measured: &BlueqatMeasured,
    base: u32,
    first_ancilla: u32,
)
    requires
        old(ops).wf(),
        base <= 0xffff,
        first_ancilla + MEASURE_ANCILLA_QUBITS <= 64,
    ensures
        final(ops).wf(),
        final(ops)@ == old(ops)@.extended(
            corrections(measured@, base as int, first_ancilla as int),
        ),
{
    let xs = bit(measured, first_ancilla) + 2 * bit(measured, first_ancilla + 1) + 4 * bit(
        measured,
        first_ancilla + 2,
    );
    let zs = bit(measured, first_ancilla + 3) + 2 * bit(measured, first_ancilla + 4) + 4 * bit(
        measured,
        first_ancilla + 5,
    );
    let ghost start = ops@;
    if xs != 0 {
        ops.unary(UnaryGate::X, base + ERR_TABLE_X[xs]);
    }
    let ghost middle = ops@;
    if zs != 0 {
        ops.unary(UnaryGate::Z, base + ERR_TABLE_Z[zs]);
    }
    proof {
        let a: Seq<OperationView> = if xs != 0 {
            seq![OperationView::Unary(UnaryGate::X, (base + ERR_TABLE_X@[xs as int]) as u32)]
        } else {
            Seq::empty()
        };
        let b: Seq<OperationView> = if zs != 0 {
            seq![OperationView::Unary(UnaryGate::Z, (base + ERR_TABLE_Z@[zs as int]) as u32)]
        } else {
            Seq::empty()
        };
        assert(middle.ops =~= start.ops + a);
        assert(ops@.ops =~= start.ops + (a + b));
    }
}

/// Where a layer stands in its recovery cycle.
#[derive(Debug, Clone, Copy, PartialEq, Eq, Structural)]
pub enum RecoveryPhase {
    /// No cycle is under way.
    Idle,
    /// The syndrome circuit of the current logical qubit was handed out; its result is awaited.
    AwaitingSyndrome,
    /// The correction for the current logical qubit was handed out.
    Corrected,
}

/// What the caller reports to the recovery cycle.
#[derive(Debug)]
pub enum RecoveryEvent {
    /// A cycle is to begin.
    Start,
    /// The batch that asked for a syndrome was run; these are the slots read back.
    Measured(BlueqatMeasured),
    /// The batch that held a correction was handed to the engine.
    Sent,
    /// The engine failed on the batch that was handed out last.
    Failed,
}

/// What the recovery cycle asks of the caller.
#[derive(Debug)]
pub enum RecoveryAction {
    /// Send the batch, read its result back and report it with `Measured`.
    SendReceive(Batch),
    /// Send the batch without waiting for a result, and report `Sent`.
    Send(Batch),
    /// The cycle has gone through every logical qubit.
    Done,
    /// The cycle was given up after a failure of the engine.
    Aborted,
    /// The event does not fit the phase; nothing was changed.
    Unexpected,
}

/// A [`RecoveryAction`] with each batch as the operations it holds.
pub enum ActionView {
    SendReceive(Seq<OperationView>),
    Send(Seq<OperationView>),
    Done,
    Aborted,
    Unexpected,
}

impl View for RecoveryAction {
    type V = ActionView;

    open spec fn view(&self) -> ActionView {
        match *self {
            RecoveryAction::SendReceive(batch) => ActionView::SendReceive(batch@.ops),
            RecoveryAction::Send(batch) => ActionView::Send(batch@.ops),
            RecoveryAction::Done => ActionView::Done,
            RecoveryAction::Aborted => ActionView::Aborted,
            RecoveryAction::Unexpected => ActionView::Unexpected,
        }
    }
}

impl RecoveryAction {
    /// The batch that an action carries, if any, is valid.
    pub open spec fn wf(&self) -> bool {
        match *self {
            RecoveryAction::SendReceive(batch) => batch.wf(),
            RecoveryAction::Send(batch) => batch.wf(),
            _ => true,
        }
    }
}

/// The state of a layer.
pub struct SteaneView {
    /// The operations buffered and not handed out yet.
    pub buffer: BufferView,
    /// Number of physical qubits, ancillas included.
    pub n_physical: nat,
    /// Number of logical qubits.
    pub n_logical: nat,
    /// The logical qubit whose recovery is under way.
    pub cursor: nat,
    /// The phase of the recovery cycle.
    pub phase: RecoveryPhase,
}

impl SteaneView {
    /// Index of the first ancilla: the ancillas follow the data qubits.
    pub open spec fn first_ancilla(self) -> int {
        7 * (self.n_logical as int)
    }

    /// Validity: the qubits fit the engine, and no ancilla is measured among the buffered
    /// operations.
    pub open spec fn wf(self) -> bool {
        &&& self.buffer.wf()
        &&& self.n_logical <= MAX_LOGICAL_QUBITS
        &&& self.n_physical == 7 * self.n_logical + 6
        &&& self.phase != RecoveryPhase::Idle ==> self.cursor < self.n_logical
        &&& forall|q: u32|
            self.first_ancilla() <= q < self.first_ancilla() + 6
                ==> !#[trigger] self.buffer.pending.dom().contains(q)
    }

    /// The same layer with more operations buffered.
    pub open spec fn with_ops(self, more: Seq<OperationView>) -> SteaneView {
        SteaneView { buffer: self.buffer.extended(more), ..self }
    }

    /// The layer and the action after the syndrome of `qubit` is asked for: all that is
    /// buffered leaves with the syndrome circuit behind it.
    pub open spec fn asking(self, qubit: nat) -> (SteaneView, ActionView) {
        (
            SteaneView {
                buffer: BufferView::empty(),
                cursor: qubit,
                phase: RecoveryPhase::AwaitingSyndrome,
                ..self
            },
            ActionView::SendReceive(
                self.buffer.ops + syndrome_circuit(7 * (qubit as int), self.first_ancilla()),
            ),
        )
    }
}

/// One step of the recovery cycle: the layer and the action that follow an event.
///
/// The cycle takes the logical qubits in order. For each it hands out the syndrome circuit,
/// waits for the result, hands out the resets and the correction, and goes on to the next once
/// those were sent. A failure of the engine ends the cycle at once.
pub open spec fn recovery_step(before: SteaneView, event: RecoveryEvent) -> (
    SteaneView,
    ActionView,
) {
    match event {
        RecoveryEvent::Start => if before.phase != RecoveryPhase::Idle {
            (before, ActionView::Unexpected)
        } else if before.n_logical == 0 {
            (before, ActionView::Done)
        } else {
            before.asking(0)
        },
        RecoveryEvent::Measured(measured) => if before.phase != RecoveryPhase::AwaitingSyndrome {
            (before, ActionView::Unexpected)
        } else {
            (
                SteaneView {
                    buffer: BufferView::empty(),
                    phase: RecoveryPhase::Corrected,
                    ..before
                },
                ActionView::Send(
                    before.buffer.ops + recovery_ops(
                        measured@,
                        7 * (before.cursor as int),
                        before.first_ancilla(),
                    ),
                ),
            )
        },
        RecoveryEvent::Sent => if before.phase != RecoveryPhase::Corrected {
            (before, ActionView::Unexpected)
        } else if before.cursor + 1 < before.n_logical {
            before.asking(before.cursor + 1)
        } else {
            (SteaneView { phase: RecoveryPhase::Idle, ..before }, ActionView::Done)
        },
        RecoveryEvent::Failed => if before.phase == RecoveryPhase::Idle {
            (before, ActionView::Unexpected)
        } else {
            (SteaneView { phase: RecoveryPhase::Idle, ..before }, ActionView::Aborted)
        },
    }
}

/// A syndrome of zero appends nothing: the batch that follows its read-back holds what was
/// buffered and no more.
pub proof fn lemma_clean_syndrome_appends_nothing(before: SteaneView, measured: BlueqatMeasured)
    requires
        before.phase == RecoveryPhase::AwaitingSyndrome,
        x_syndrome(measured@, before.first_ancilla()) == 0,
        z_syndrome(measured@, before.first_ancilla()) == 0,
    ensures
        recovery_step(before, RecoveryEvent::Measured(measured)).1 == ActionView::Send(
            before.buffer.ops,
        ),
{
    lemma_zero_syndrome_corrects_nothing(
        measured@,
        7 * (before.cursor as int),
        before.first_ancilla(),
    );
    assert(before.buffer.ops + Seq::<OperationView>::empty() =~= before.buffer.ops);
}

/// Logical qubits over the engine's physical qubits, with six ancillas behind them.
#[derive(Debug)]
pub struct SteaneLayer {
    ops: BlueqatOperations,
    n_physical_qubits: u32,
    n_logical_qubits: u32,
    cursor: u32,
    phase: RecoveryPhase,
}

impl View for SteaneLayer {
    type V = SteaneView;

    closed spec fn view(&self) -> SteaneView {
        SteaneView {
            buffer: self.ops@,
            n_physical: self.n_physical_qubits as nat,
            n_logical: self.n_logical_qubits as nat,
            cursor: self.cursor as nat,
            phase: self.phase,
        }
    }
}

impl SteaneLayer {
    /// Validity of a layer.
    pub open spec fn wf(&self) -> bool {
        self@.wf()
    }

    /// A layer of `n_qubits` logical qubits, with nothing buffered and no cycle under way.
    pub fn new(n_qubits: u8) -> (layer: SteaneLayer)
        requires
            n_qubits <= MAX_LOGICAL_QUBITS,
        ensures
            layer.wf(),
            layer@ == (SteaneView {
                buffer: BufferView::empty(),
                n_physical: (7 * n_qubits + 6) as nat,
                n_logical: n_qubits as nat,
                cursor: 0,
                phase: RecoveryPhase::Idle,
            }),
    {
        SteaneLayer {
            ops: BlueqatOperations::new(),
            n_physical_qubits: PHYSICAL_PER_LOGICAL * (n_qubits as u32) + MEASURE_ANCILLA_QUBITS,
            n_logical_qubits: n_qubits as u32,
            cursor: 0,
            phase: RecoveryPhase::Idle,
        }
    }

    /// Index of the first ancilla qubit.
    pub fn measure_ancilla(&self) -> (first: u32)
        requires
            self.wf(),
        ensures
            first == self@.first_ancilla(),
    {
        self.n_physical_qubits - 6
    }

    /// Number of logical qubits.
    pub fn logical_qubits(&self) -> (n: u32)
        ensures
            n == self@.n_logical,
    {
        self.n_logical_qubits
    }

    /// Number of physical qubits, ancillas included.
    pub fn physical_qubits(&self) -> (n: u32)
        ensures
            n == self@.n_physical,
    {
        self.n_physical_qubits
    }

    /// The phase of the recovery cycle.
    pub fn phase(&self) -> (phase: RecoveryPhase)
        ensures
            phase == self@.phase,
    {
        self.phase
    }

    /// The operations buffered and not handed out yet.
    pub fn buffered(&self) -> (ops: &BlueqatOperations)
        ensures
            ops@ == self@.buffer,
    {
        &self.ops
    }

    /// Drops what is buffered, starts a fresh circuit with `Init` and ends any cycle.
    pub fn initialize(&mut self)
        requires
            old(self).wf(),
        ensures
            final(self).wf(),
            final(self)@ == (SteaneView {
                buffer: BufferView::initialized(),
                cursor: 0,
                phase: RecoveryPhase::Idle,
                ..old(self)@
            }),
    {
        self.ops.initialize();
        self.cursor = 0;
        self.phase = RecoveryPhase::Idle;
    }

    /// Moves the buffered operations out as one batch.
    pub fn flush(&mut self) -> (batch: Batch)
        requires
            old(self).wf(),
        ensures
            final(self).wf(),
            batch.wf(),
            batch@ == old(self)@.buffer,
            final(self)@ == (SteaneView { buffer: BufferView::empty(), ..old(self)@ }),
    {
        self.ops.flush()
    }

    /// Appends `gate` on one physical qubit, as an error or a hand-made correction would.
    pub fn physical(&mut self, gate: UnaryGate, qubit: u32)
        requires
            old(self).wf(),
        ensures
            final(self).wf(),
            final(self)@ == old(self)@.with_ops(seq![OperationView::Unary(gate, qubit)]),
    {
        self.ops.unary(gate, qubit);
        proof {
            assert(self@.buffer.ops =~= old(self)@.buffer.ops + seq![
                OperationView::Unary(gate, qubit),
            ]);
        }
    }

    fn logical(&mut self, gate: UnaryGate, q: u8)
        requires
            old(self).wf(),
        ensures
            final(self).wf(),
            final(self)@ == old(self)@.with_ops(transversal(gate, 7 * q)),
    {
        append_transversal(&mut self.ops, gate, PHYSICAL_PER_LOGICAL * (q as u32));
    }

    /// Logical `x` on logical qubit `q`: `x` on each of its physical qubits.
    pub fn x(&mut self, q: u8)
        requires
            old(self).wf(),
        ensures
            final(self).wf(),
            final(self)@ == old(self)@.with_ops(transversal(UnaryGate::X, 7 * q)),
    {
        self.logical(UnaryGate::X, q);
    }

    /// Logical `y` on logical qubit `q`: `y` on each of its physical qubits.
    pub fn y(&mut self, q: u8)
        requires
            old(self).wf(),
        ensures
            final(self).wf(),
            final(self)@ == old(self)@.with_ops(transversal(UnaryGate::Y, 7 * q)),
    {
        self.logical(UnaryGate::Y, q);
    }

    /// Logical `z` on logical qubit `q`: `z` on each of its physical qubits.
    pub fn z(&mut self, q: u8)
        requires
            old(self).wf(),
        ensures
            final(self).wf(),
            final(self)@ == old(self)@.with_ops(transversal(UnaryGate::Z, 7 * q)),
    {
        self.logical(UnaryGate::Z, q);
    }

    /// Logical `h` on logical qubit `q`: `h` on each of its physical qubits.
    pub fn h(&mut self, q: u8)
        requires
            old(self).wf(),
        ensures
            final(self).wf(),
            final(self)@ == old(self)@.with_ops(transversal(UnaryGate::H, 7 * q)),
    {
        self.logical(UnaryGate::H, q);
    }

    /// Logical `s` on logical qubit `q`: `s` on each of its physical qubits.
    pub fn s(&mut self, q: u8)
        requires
            old(self).wf(),
        ensures
            final(self).wf(),
            final(self)@ == old(self)@.with_ops(transversal(UnaryGate::S, 7 * q)),
    {
        self.logical(UnaryGate::S, q);
    }

    /// Logical `sdg` on logical qubit `q`: `sdg` on each of its physical qubits.
    pub fn sdg(&mut self, q: u8)
        requires
            old(self).wf(),
        ensures
            final(self).wf(),
            final(self)@ == old(self)@.with_ops(transversal(UnaryGate::Sdg, 7 * q)),
    {
        self.logical(UnaryGate::Sdg, q);
    }

    /// Logical controlled-X from logical qubit `c` to logical qubit `t`: a physical
    /// controlled-X between their physical qubits of equal offset.
    pub fn cx(&mut self, c: u8, t: u8)
        requires
            old(self).wf(),
        ensures
            final(self).wf(),
            final(self)@ == old(self)@.with_ops(transversal_cx(7 * c, 7 * t)),
    {
        append_transversal_cx(
            &mut self.ops,
            PHYSICAL_PER_LOGICAL * (c as u32),
            PHYSICAL_PER_LOGICAL * (t as u32),
        );
    }

    /// Logical measurement of logical qubit `q` into logical slot `c`: each of the seven
    /// physical qubits of `q` is measured into the slot of the same offset among the seven
    /// slots of `c`.
    ///
    /// Fails with `SlotConflict`, and appends nothing, if one of those physical qubits is
    /// measured already among the buffered operations.
    pub fn measure(&mut self, q: u8, c: u8) -> (done: Result<(), Error>)
        requires
            old(self).wf(),
            q < old(self)@.n_logical,
            c < old(self)@.n_logical,
        ensures
            final(self).wf(),
            block_measurable(old(self)@.buffer, 7 * q) ==> done is Ok && final(self)@ == (
                SteaneView {
                    buffer: measured_block(old(self)@.buffer, 7 * q, 7 * c, 7),
                    ..old(self)@
                }
            ),
            !block_measurable(old(self)@.buffer, 7 * q) ==> done == Err::<(), Error>(
                Error::SlotConflict,
            ) && final(self)@ == old(self)@,
    {
        let base = PHYSICAL_PER_LOGICAL * (q as u32);
        let slot_base = PHYSICAL_PER_LOGICAL * (c as u32);
        let mut k: u32 = 0;
        while k < PHYSICAL_PER_LOGICAL
            invariant
                k <= PHYSICAL_PER_LOGICAL,
                base == 7 * q,
                self.wf(),
                *self == *old(self),
                forall|p: u32| base <= p < base + k ==> !#[trigger] self@.buffer.pending.dom().contains(p),
            decreases PHYSICAL_PER_LOGICAL - k,
        {
            if self.ops.pending_slot(base + k).is_some() {
                assert(self@.buffer.pending.dom().contains((base + k) as u32));
                return Err(Error::SlotConflict);
            }
            k += 1;
        }
        let mut k: u32 = 0;
        while k < PHYSICAL_PER_LOGICAL
            invariant
                k <= PHYSICAL_PER_LOGICAL,
                base == 7 * q,
                slot_base == 7 * c,
                old(self).wf(),
                q < old(self)@.n_logical,
                c < old(self)@.n_logical,
                self.ops.wf(),
                self@ == (SteaneView {
                    buffer: measured_block(old(self)@.buffer, base as int, slot_base as int, k as nat),
                    ..old(self)@
                }),
                forall|p: u32|
                    base + k <= p < base + 7 ==> !#[trigger] self@.buffer.pending.dom().contains(p),
                forall|p: u32|
                    old(self)@.first_ancilla() <= p < old(self)@.first_ancilla() + 6
                        ==> !#[trigger] self@.buffer.pending.dom().contains(p),
            decreases PHYSICAL_PER_LOGICAL - k,
        {
            let ghost before = self@.buffer;
            assert(!before.pending.dom().contains((base + k) as u32));
            let done = self.ops.measure(base + k, slot_base + k);
            assert(done is Ok);
            proof {
                assert forall|p: u32| base + k + 1 <= p < base + 7 implies !#[trigger] self@.buffer.pending.dom().contains(p) by {
                    assert(!before.pending.dom().contains(p));
                }
                assert forall|p: u32|
                    old(self)@.first_ancilla() <= p < old(self)@.first_ancilla()
                        + 6 implies !#[trigger] self@.buffer.pending.dom().contains(p) by {
                    assert(!before.pending.dom().contains(p));
                }
            }
            k += 1;
        }
        Ok(())
    }

    fn ask(&mut self, qubit: u32) -> (action: RecoveryAction)
        requires
            old(self).wf(),
            qubit < old(self)@.n_logical,
        ensures
            final(self).wf(),
            action.wf(),
            (final(self)@, action@) == old(self)@.asking(qubit as nat),
    {
        let base = PHYSICAL_PER_LOGICAL * qubit;
        let first_ancilla = self.n_physical_qubits - MEASURE_ANCILLA_QUBITS;
        let ghost start = self.ops@;
        append_transversal(&mut self.ops, UnaryGate::H, base);
        append_checks(&mut self.ops, base, first_ancilla, &X_CHECKS);
        append_transversal(&mut self.ops, UnaryGate::H, base);
        append_checks(&mut self.ops, base, first_ancilla + 3, &Z_CHECKS);
        proof {
            assert forall|q: u32|
                first_ancilla <= q < first_ancilla + MEASURE_ANCILLA_QUBITS implies self.ops@.measurable(
                q,
            ) by {
                assert(!start.pending.dom().contains(q));
            }
        }
        append_ancilla_measures(&mut self.ops, first_ancilla);
        proof {
            assert(self.ops@.ops =~= start.ops + syndrome_circuit(
                base as int,
                first_ancilla as int,
            ));
        }
        let batch = self.ops.flush();
        self.cursor = qubit;
        self.phase = RecoveryPhase::AwaitingSyndrome;
        RecoveryAction::SendReceive(batch)
    }

    /// Takes the recovery cycle one step further.
    ///
    /// The caller reports what happened to the batch handed out last and gets the next thing to
    /// do. See [`recovery_step`] for what each event leads to.
    pub fn syndrome_measure_and_recover(&mut self, event: RecoveryEvent) -> (action:
        RecoveryAction)
        requires
            old(self).wf(),
        ensures
            final(self).wf(),
            action.wf(),
            (final(self)@, action@) == recovery_step(old(self)@, event),
    {
        match event {
            RecoveryEvent::Start => {
                if self.phase != RecoveryPhase::Idle {
                    RecoveryAction::Unexpected
                } else if self.n_logical_qubits == 0 {
                    RecoveryAction::Done
                } else {
                    self.ask(0)
                }
            },
            RecoveryEvent::Measured(measured) => {
                if self.phase != RecoveryPhase::AwaitingSyndrome {
                    RecoveryAction::Unexpected
                } else {
                    let base = PHYSICAL_PER_LOGICAL * self.cursor;
                    let first_ancilla = self.n_physical_qubits - MEASURE_ANCILLA_QUBITS;
                    let ghost start = self.ops@;
                    append_resets(&mut self.ops, &measured, first_ancilla);
                    append_corrections(&mut self.ops, &measured, base, first_ancilla);
                    proof {
                        assert(self.ops@.ops =~= start.ops + recovery_ops(
                            measured@,
                            base as int,
                            first_ancilla as int,
                        ));
                    }
                    let batch = self.ops.flush();
                    self.phase = RecoveryPhase::Corrected;
                    RecoveryAction::Send(batch)
                }
            },
            RecoveryEvent::Sent => {
                if self.phase != RecoveryPhase::Corrected {
                    RecoveryAction::Unexpected
                } else if self.cursor + 1 < self.n_logical_qubits {
                    self.ask(self.cursor + 1)
                } else {
                    self.phase = RecoveryPhase::Idle;
                    RecoveryAction::Done
                }
            },
            RecoveryEvent::Failed => {
                if self.phase == RecoveryPhase::Idle {
                    RecoveryAction::Unexpected
                } else {
                    self.phase = RecoveryPhase::Idle;
                    RecoveryAction::Aborted
                }
            },
        }
    }
}

} // verus!
