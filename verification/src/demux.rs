//! The result demultiplexer: from the engine's sample, one character per physical qubit, to the
//! slots that the pending measurements name.

use crate::error::Error;
use crate::measured::BlueqatMeasured;
use crate::slots::{covers, within_capacity, SlotTable, QUBIT_COUNT, SLOT_COUNT};
use vstd::prelude::*;
use vstd::string::StringSliceAdditionalSpecFns;

verus! {

/// The byte that the engine writes for a qubit measured as one.
pub const ONE: u8 = 49;

/// What the sample says of `qubit`: the character at the qubit's own index, counted from the
/// start of the sample, is `1`.
pub open spec fn sample_bit(sample: Seq<u8>, qubit: u32) -> bool {
    sample[qubit as int] == ONE
}

/// `qubit` is the highest pending qubit that reads into `slot`.
pub open spec fn writes_last(pending: Map<u32, u32>, slot: int, qubit: u32) -> bool {
    &&& pending.dom().contains(qubit)
    &&& pending[qubit] == slot
    &&& forall|k: u32| qubit < k && #[trigger] pending.dom().contains(k) ==> pending[k] != slot
}

/// The highest pending qubit that reads into `slot`, if any does.
pub open spec fn last_writer(pending: Map<u32, u32>, slot: int) -> Option<u32> {
    if exists|q: u32| writes_last(pending, slot, q) {
        Some(choose|q: u32| writes_last(pending, slot, q))
    } else {
        None
    }
}

/// The slots after reading a sample back: a slot that pending qubits read into holds the bit of
/// the highest of them, every other slot keeps what it held.
pub open spec fn demultiplexed(pending: Map<u32, u32>, sample: Seq<u8>, before: Seq<bool>) -> Seq<
    bool,
> {
    Seq::new(
        before.len(),
        |s: int|
            match last_writer(pending, s) {
                Some(q) => sample_bit(sample, q),
                None => before[s],
            },
    )
}

/// No two pending qubits read into the same slot.
pub open spec fn distinct_slots(pending: Map<u32, u32>) -> bool {
    forall|p: u32, q: u32|
        #![trigger pending.dom().contains(p), pending.dom().contains(q)]
        pending.dom().contains(p) && pending.dom().contains(q) && pending[p] == pending[q] ==> p
            == q
}

/// A slot has at most one last writer.
pub proof fn lemma_last_writer_unique(pending: Map<u32, u32>, slot: int, p: u32, q: u32)
    requires
        writes_last(pending, slot, p),
        writes_last(pending, slot, q),
    ensures
        p == q,
{
    if p < q {
        assert(pending.dom().contains(q));
    } else if q < p {
        assert(pending.dom().contains(p));
    }
}

/// The pending measurements of the qubits below `bound`.
spec fn below(pending: Map<u32, u32>, bound: nat) -> Map<u32, u32> {
    pending.restrict(Set::new(|q: u32| q < bound))
}

/// Reading one more qubit, higher than all read so far, overwrites its slot and no other.
proof fn lemma_demultiplexed_step(
    pending: Map<u32, u32>,
    sample: Seq<u8>,
    before: Seq<bool>,
    qubit: u32,
    slot: u32,
)
    requires
        forall|k: u32| #[trigger] pending.dom().contains(k) ==> k < qubit,
        slot < before.len(),
    ensures
        demultiplexed(pending.insert(qubit, slot), sample, before) == demultiplexed(
            pending,
            sample,
            before,
        ).update(slot as int, sample_bit(sample, qubit)),
{
    let grown = pending.insert(qubit, slot);
    let left = demultiplexed(grown, sample, before);
    let right = demultiplexed(pending, sample, before).update(
        slot as int,
        sample_bit(sample, qubit),
    );
    assert forall|s: int| 0 <= s < before.len() implies left[s] == right[s] by {
        let t = s;
        if s == slot {
            assert(grown.dom().contains(qubit));
            assert(writes_last(grown, t, qubit));
            let w = choose|q: u32| writes_last(grown, t, q);
            lemma_last_writer_unique(grown, t, w, qubit);
        } else {
            assert forall|q: u32| writes_last(grown, t, q) == writes_last(pending, t, q) by {
                if writes_last(grown, t, q) {
                    assert(q != qubit);
                    assert(pending.dom().contains(q));
                    assert forall|k: u32| q < k && #[trigger] pending.dom().contains(k) implies pending[k] != t by {
                        assert(grown.dom().contains(k));
                    }
                }
                if writes_last(pending, t, q) {
                    assert(grown.dom().contains(q));
                    assert forall|k: u32| q < k && #[trigger] grown.dom().contains(k) implies grown[k] != t by {
                        if k != qubit {
                            assert(pending.dom().contains(k));
                        }
                    }
                }
            }
            if exists|q: u32| writes_last(pending, t, q) {
                let a = choose|q: u32| writes_last(pending, t, q);
                assert(writes_last(grown, t, a));
                let b = choose|q: u32| writes_last(grown, t, q);
                lemma_last_writer_unique(grown, t, a, b);
            } else {
                assert forall|q: u32| !writes_last(grown, t, q) by {
                    assert(!writes_last(pending, t, q));
                }
            }
        }
    }
    assert(left =~= right);
}

/// With distinct slots, every pending qubit's bit is found at its slot, and the slots that no
/// pending qubit reads into are left as they were.
pub proof fn lemma_demultiplexed_distinct(
    pending: Map<u32, u32>,
    sample: Seq<u8>,
    before: Seq<bool>,
)
    requires
        distinct_slots(pending),
        forall|q: u32| #[trigger] pending.dom().contains(q) ==> pending[q] < before.len(),
    ensures
        demultiplexed(pending, sample, before).len() == before.len(),
        forall|q: u32| #[trigger]
            pending.dom().contains(q) ==> demultiplexed(pending, sample, before)[pending[q] as int]
                == sample_bit(sample, q),
        forall|s: int|
            0 <= s < before.len() && (forall|q: u32| #[trigger]
                pending.dom().contains(q) ==> pending[q] != s) ==> #[trigger] demultiplexed(
                pending,
                sample,
                before,
            )[s] == before[s],
{
    let after = demultiplexed(pending, sample, before);
    assert forall|q: u32| #[trigger] pending.dom().contains(q) implies after[pending[q] as int]
        == sample_bit(sample, q) by {
        let s = pending[q] as int;
        assert(writes_last(pending, s, q));
        let w = choose|k: u32| writes_last(pending, s, k);
        lemma_last_writer_unique(pending, s, w, q);
    }
    assert forall|s: int|
        0 <= s < before.len() && (forall|q: u32| #[trigger]
            pending.dom().contains(q) ==> pending[q] != s) implies #[trigger] after[s]
        == before[s] by {
        assert forall|q: u32| !writes_last(pending, s, q) by {
            if pending.dom().contains(q) {
                assert(pending[q] != s);
            }
        }
    }
}

/// Reads the sample back into the slots that the pending measurements name.
///
/// The sample holds one byte per physical qubit, the byte of qubit 0 first.
pub fn demultiplex(table: &SlotTable, sample: &[u8], buf: &mut BlueqatMeasured)
    requires
        table.wf(),
        covers(table@, sample@.len()),
    ensures
        final(buf)@ == demultiplexed(table@, sample@, old(buf)@),
{
    proof {
        buf.lemma_len();
        assert(below(table@, 0) =~= Map::<u32, u32>::empty());
        assert(buf@ =~= demultiplexed(below(table@, 0), sample@, old(buf)@));
    }
    let mut q: u32 = 0;
    while q < QUBIT_COUNT
        invariant
            q <= QUBIT_COUNT,
            table.wf(),
            covers(table@, sample@.len()),
            old(buf)@.len() == SLOT_COUNT,
            buf@ == demultiplexed(below(table@, q as nat), sample@, old(buf)@),
        decreases QUBIT_COUNT - q,
    {
        let ghost seen = below(table@, q as nat);
        match table.get(q) {
            Some(s) => {
                assert(table@.dom().contains(q));
                let bit = sample[q as usize] == ONE;
                buf.set(s, bit);
                proof {
                    lemma_demultiplexed_step(seen, sample@, old(buf)@, q, s);
                    assert(below(table@, (q + 1) as nat) =~= seen.insert(q, s));
                }
            },
            None => {
                assert(below(table@, (q + 1) as nat) =~= seen);
            },
        }
        q += 1;
    }
    proof {
        assert(below(table@, QUBIT_COUNT as nat) =~= table@) by {
            assert forall|k: u32| table@.dom().contains(k) implies k < QUBIT_COUNT by {
                assert(within_capacity(table@));
            }
        }
    }
}

/// Reads the sample back into the slots of `table`, provided it has a character for every
/// pending qubit; fails with `EngineError`, and leaves `buf` as it was, if it has not.
pub fn read_back(table: &SlotTable, sample: &str, buf: &mut BlueqatMeasured) -> (done: Result<
    (),
    Error,
>)
    requires
        table.wf(),
    ensures
        covers(table@, sample.spec_bytes().len()) ==> done is Ok && final(buf)@ == demultiplexed(
            table@,
            sample.spec_bytes(),
            old(buf)@,
        ),
        !covers(table@, sample.spec_bytes().len()) ==> done == Err::<(), Error>(
            Error::EngineError,
        ) && final(buf)@ == old(buf)@,
{
    let bytes = sample.as_bytes();
    if table.covered_by(bytes.len()) {
        demultiplex(table, bytes, buf);
        Ok(())
    } else {
        Err(Error::EngineError)
    }
}

} // verus!
