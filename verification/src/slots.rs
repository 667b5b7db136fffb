//! The table of pending measurements: which qubit was measured into which slot and has not been
//! read back yet.

use crate::error::Error;
use crate::operation::{Operation, OperationView};
use vstd::prelude::*;

verus! {

/// The entry that marks a qubit without a pending measurement.
pub const UNASSIGNED: u32 = 0xffff_ffff;

/// Number of physical qubits a table has an entry for.
pub const QUBIT_COUNT: u32 = 64;

/// Number of slots a measurement can be read into.
pub const SLOT_COUNT: u32 = 64;

/// Pending measurements, one entry per physical qubit.
#[derive(Debug, Clone, Copy)]
pub struct SlotTable {
    slot: [u32; 64],
}

impl View for SlotTable {
    type V = Map<u32, u32>;

    /// The pending measurements as a map from qubit to slot.
    closed spec fn view(&self) -> Map<u32, u32> {
        Map::new(
            |q: u32| q < QUBIT_COUNT && self.slot@[q as int] != UNASSIGNED,
            |q: u32| self.slot@[q as int],
        )
    }
}

/// Every pending qubit and its slot lie within the table's capacity.
pub open spec fn within_capacity(pending: Map<u32, u32>) -> bool {
    forall|q: u32| #[trigger]
        pending.dom().contains(q) ==> q < QUBIT_COUNT && pending[q] < SLOT_COUNT
}

impl SlotTable {
    /// Validity of a table: its entries name slots that exist.
    pub open spec fn wf(&self) -> bool {
        within_capacity(self@)
    }

    /// A table without pending measurements.
    pub fn new() -> (table: SlotTable)
        ensures
            table.wf(),
            table@ == Map::<u32, u32>::empty(),
    {
        let table = SlotTable { slot: [UNASSIGNED; 64] };
        assert(table@ =~= Map::<u32, u32>::empty());
        table
    }

    /// The slot that `qubit` is pending into, if it is pending.
    pub fn get(&self, qubit: u32) -> (slot: Option<u32>)
        ensures
            match slot {
                Some(s) => self@.dom().contains(qubit) && self@[qubit] == s,
                None => !self@.dom().contains(qubit),
            },
    {
        if qubit < QUBIT_COUNT && self.slot[qubit as usize] != UNASSIGNED {
            Some(self.slot[qubit as usize])
        } else {
            None
        }
    }

    /// Whether no measurement is pending.
    pub fn is_empty(&self) -> (empty: bool)
        ensures
            empty == (self@ == Map::<u32, u32>::empty()),
    {
        let mut q: usize = 0;
        while q < 64
            invariant
                q <= 64,
                forall|k: u32| k < q ==> !self@.dom().contains(k),
            decreases 64 - q,
        {
            if self.slot[q] != UNASSIGNED {
                assert(self@.dom().contains(q as u32));
                return false;
            }
            q += 1;
        }
        assert(self@ =~= Map::<u32, u32>::empty());
        true
    }

    /// Registers the measurement of `qubit` into `slot`.
    ///
    /// Fails, and leaves the table as it was, if `qubit` is pending already.
    pub fn assign(&mut self, qubit: u32, slot: u32) -> (done: Result<(), Error>)
        requires
            old(self).wf(),
            qubit < QUBIT_COUNT,
            slot < SLOT_COUNT,
        ensures
            final(self).wf(),
            done is Err <==> old(self)@.dom().contains(qubit),
            done is Err ==> done == Err::<(), Error>(Error::SlotConflict)
                && final(self)@ == old(self)@,
            done is Ok ==> final(self)@ == old(self)@.insert(qubit, slot),
    {
        if self.slot[qubit as usize] != UNASSIGNED {
            return Err(Error::SlotConflict);
        }
        self.slot[qubit as usize] = slot;
        assert(self@ =~= old(self)@.insert(qubit, slot));
        Ok(())
    }

    /// Forgets every pending measurement.
    pub fn clear(&mut self)
        ensures
            final(self).wf(),
            final(self)@ == Map::<u32, u32>::empty(),
    {
        self.slot = [UNASSIGNED; 64];
        assert(self@ =~= Map::<u32, u32>::empty());
    }

    /// Whether a sample of `len` characters has one for every pending qubit.
    pub fn covered_by(&self, len: usize) -> (covered: bool)
        ensures
            covered == covers(self@, len as nat),
    {
        let mut q: usize = 0;
        while q < 64
            invariant
                q <= 64,
                forall|k: u32| k < q && self@.dom().contains(k) ==> k < len,
            decreases 64 - q,
        {
            if self.slot[q] != UNASSIGNED && q >= len {
                assert(self@.dom().contains(q as u32));
                return false;
            }
            q += 1;
        }
        true
    }
}

/// A sample of `len` characters has one for every pending qubit.
pub open spec fn covers(pending: Map<u32, u32>, len: nat) -> bool {
    forall|q: u32| #[trigger] pending.dom().contains(q) ==> q < len
}

/// Every measurement among `ops` names a qubit and a slot within the table's capacity.
pub open spec fn measures_within_capacity(ops: Seq<OperationView>) -> bool {
    forall|i: int|
        0 <= i < ops.len() ==> (#[trigger] ops[i] matches OperationView::Measure(q, s) ==> q
            < QUBIT_COUNT && s < SLOT_COUNT)
}

/// The pending measurements once the measurements among `ops` are registered, in order, on top
/// of `pending`; `None` if one of them measures a qubit that is pending by then.
pub open spec fn assigned(pending: Map<u32, u32>, ops: Seq<OperationView>) -> Option<
    Map<u32, u32>,
>
    decreases ops.len(),
{
    if ops.len() == 0 {
        Some(pending)
    } else {
        match assigned(pending, ops.drop_last()) {
            None => None,
            Some(so_far) => match ops.last() {
                OperationView::Measure(q, s) => if so_far.dom().contains(q) {
                    None
                } else {
                    Some(so_far.insert(q, s))
                },
                _ => Some(so_far),
            },
        }
    }
}

/// The qubit that `op` measures, if it is a measurement.
pub open spec fn measured_qubit(op: OperationView) -> Option<u32> {
    match op {
        OperationView::Measure(q, _) => Some(q),
        _ => None,
    }
}

/// `qubit` is measured among the first `n` of `ops`.
pub open spec fn measured_before(ops: Seq<OperationView>, n: int, qubit: u32) -> bool {
    exists|j: int| 0 <= j < n && j < ops.len() && measured_qubit(#[trigger] ops[j]) == Some(qubit)
}

/// The operation at `i` measures a qubit that is pending by then: from the start, or because an
/// earlier operation measures it.
pub open spec fn conflicts_at(pending: Map<u32, u32>, ops: Seq<OperationView>, i: int) -> bool {
    &&& 0 <= i < ops.len()
    &&& ops[i] matches OperationView::Measure(q, _)
    &&& (pending.dom().contains(q) || measured_before(ops, i, q))
}

/// What [`assigned`] comes to. It fails exactly if some measurement meets a pending qubit.
/// Otherwise the qubits pending afterwards are those pending before and those measured, the
/// former with the slot they had, the latter with the slot they are measured into.
pub proof fn lemma_assigned_meaning(pending: Map<u32, u32>, ops: Seq<OperationView>)
    ensures
        assigned(pending, ops) is None <==> exists|i: int| conflicts_at(pending, ops, i),
        assigned(pending, ops) matches Some(after) ==> {
            &&& forall|q: u32|
                after.dom().contains(q) <==> pending.dom().contains(q) || measured_before(
                    ops,
                    ops.len() as int,
                    q,
                )
            &&& forall|q: u32| pending.dom().contains(q) ==> after[q] == pending[q]
            &&& forall|i: int|
                0 <= i < ops.len() ==> (#[trigger] ops[i] matches OperationView::Measure(q, s)
                    ==> after[q] == s)
        },
    decreases ops.len(),
{
    if ops.len() == 0 {
        assert forall|i: int| !conflicts_at(pending, ops, i) by {}
        assert forall|q: u32| !measured_before(ops, ops.len() as int, q) by {}
    } else {
        let front = ops.drop_last();
        let n = front.len() as int;
        lemma_assigned_meaning(pending, front);
        assert forall|i: int, q: u32| 0 <= i <= n implies measured_before(front, i, q)
            == measured_before(ops, i, q) by {
            if measured_before(front, i, q) {
                let j = choose|j: int|
                    0 <= j < i && j < front.len() && measured_qubit(#[trigger] front[j]) == Some(q);
                assert(ops[j] == front[j]);
            }
            if measured_before(ops, i, q) {
                let j = choose|j: int|
                    0 <= j < i && j < ops.len() && measured_qubit(#[trigger] ops[j]) == Some(q);
                assert(ops[j] == front[j]);
            }
        }
        assert forall|i: int| 0 <= i < n implies conflicts_at(pending, front, i) == conflicts_at(
            pending,
            ops,
            i,
        ) by {
            assert(ops[i] == front[i]);
        }
        match assigned(pending, front) {
            None => {
                let i = choose|i: int| conflicts_at(pending, front, i);
                assert(conflicts_at(pending, ops, i));
            },
            Some(so_far) => {
                assert forall|i: int| 0 <= i < n implies !conflicts_at(pending, ops, i) by {
                    assert(!conflicts_at(pending, front, i));
                }
                match ops.last() {
                    OperationView::Measure(q, s) => {
                        assert(ops[n] == ops.last());
                        if so_far.dom().contains(q) {
                            assert(measured_before(front, n, q) == measured_before(ops, n, q));
                            assert(conflicts_at(pending, ops, n));
                        } else {
                            assert(!measured_before(ops, n, q));
                            assert(!conflicts_at(pending, ops, n));
                            assert forall|i: int| !conflicts_at(pending, ops, i) by {
                                if 0 <= i < n {
                                    assert(!conflicts_at(pending, front, i));
                                }
                            }
                            let after = so_far.insert(q, s);
                            assert forall|p: u32|
                                after.dom().contains(p) <==> pending.dom().contains(p)
                                    || measured_before(ops, ops.len() as int, p) by {
                                if measured_before(ops, ops.len() as int, p) {
                                    let j = choose|j: int|
                                        0 <= j < ops.len() && j < ops.len() && measured_qubit(
                                            #[trigger] ops[j],
                                        ) == Some(p);
                                    if j < n {
                                        assert(front[j] == ops[j]);
                                        assert(measured_before(front, n, p));
                                    }
                                }
                                if measured_before(front, n, p) {
                                    assert(measured_before(ops, n, p));
                                    let j = choose|j: int|
                                        0 <= j < n && j < ops.len() && measured_qubit(
                                            #[trigger] ops[j],
                                        ) == Some(p);
                                    assert(measured_before(ops, ops.len() as int, p));
                                }
                                if p == q {
                                    assert(measured_qubit(ops[n]) == Some(q));
                                    assert(measured_before(ops, ops.len() as int, p));
                                }
                            }
                            assert forall|i: int| 0 <= i < ops.len() implies (
                            #[trigger] ops[i] matches OperationView::Measure(a, b) ==> after[a]
                                == b) by {
                                if i < n {
                                    assert(front[i] == ops[i]);
                                    if let OperationView::Measure(a, b) = ops[i] {
                                        assert(measured_qubit(front[i]) == Some(a));
                                        assert(measured_before(front, n, a));
                                        assert(a != q);
                                    }
                                }
                            }
                        }
                    },
                    _ => {
                        assert(ops[n] == ops.last());
                        assert(!conflicts_at(pending, ops, n));
                        assert forall|i: int| !conflicts_at(pending, ops, i) by {
                            if 0 <= i < n {
                                assert(!conflicts_at(pending, front, i));
                            }
                        }
                        assert forall|p: u32|
                            so_far.dom().contains(p) <==> pending.dom().contains(p)
                                || measured_before(ops, ops.len() as int, p) by {
                            if measured_before(ops, ops.len() as int, p) {
                                let j = choose|j: int|
                                    0 <= j < ops.len() && j < ops.len() && measured_qubit(
                                        #[trigger] ops[j],
                                    ) == Some(p);
                                assert(j < n);
                                assert(front[j] == ops[j]);
                                assert(measured_before(front, n, p));
                            }
                            if measured_before(front, n, p) {
                                assert(measured_before(ops, n, p));
                                let j = choose|j: int|
                                    0 <= j < n && j < ops.len() && measured_qubit(
                                        #[trigger] ops[j],
                                    ) == Some(p);
                                assert(measured_before(ops, ops.len() as int, p));
                            }
                        }
                        assert forall|i: int| 0 <= i < ops.len() implies (
                        #[trigger] ops[i] matches OperationView::Measure(a, b) ==> so_far[a]
                            == b) by {
                            if i < n {
                                assert(front[i] == ops[i]);
                            }
                        }
                    },
                }
            },
        }
    }
}

/// Once a measurement conflicts, the operations that follow change nothing: the whole sequence
/// conflicts.
pub proof fn lemma_assigned_conflict_stays(
    pending: Map<u32, u32>,
    ops: Seq<OperationView>,
    n: int,
)
    requires
        0 <= n <= ops.len(),
        assigned(pending, ops.take(n)) is None,
    ensures
        assigned(pending, ops) is None,
    decreases ops.len(),
{
    if n == ops.len() {
        assert(ops.take(n) =~= ops);
    } else {
        assert(ops.drop_last().take(n) =~= ops.take(n));
        lemma_assigned_conflict_stays(pending, ops.drop_last(), n);
    }
}

/// Whether every measurement among `ops` names a qubit and a slot within capacity.
pub fn measures_fit(ops: &[Operation]) -> (fit: bool)
    ensures
        fit == measures_within_capacity(ops.deep_view()),
{
    let mut i: usize = 0;
    while i < ops.len()
        invariant
            i <= ops.len(),
            forall|k: int|
                0 <= k < i ==> (#[trigger] ops.deep_view()[k] matches OperationView::Measure(q, s)
                    ==> q < QUBIT_COUNT && s < SLOT_COUNT),
        decreases ops.len() - i,
    {
        match &ops[i] {
            Operation::Measure(q, s) => {
                if *q >= QUBIT_COUNT || *s >= SLOT_COUNT {
                    assert(ops.deep_view()[i as int] == OperationView::Measure(*q, *s));
                    return false;
                }
            },
            _ => {},
        }
        i += 1;
    }
    true
}

} // verus!
