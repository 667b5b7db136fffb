//! Measurement results, addressed by slot.

use crate::slots::SLOT_COUNT;
use vstd::prelude::*;

verus! {

/// The bits read back from the engine, one per slot.
#[derive(Debug)]
pub struct BlueqatMeasured([bool; 64]);

impl View for BlueqatMeasured {
    type V = Seq<bool>;

    /// The bits in slot order; there are [`SLOT_COUNT`] of them.
    closed spec fn view(&self) -> Seq<bool> {
        self.0@
    }
}

impl BlueqatMeasured {
    /// A result in which every slot reads `false`.
    pub fn new() -> (measured: BlueqatMeasured)
        ensures
            measured@ == Seq::new(SLOT_COUNT as nat, |s: int| false),
    {
        let measured = BlueqatMeasured([false; 64]);
        assert(measured@ =~= Seq::new(SLOT_COUNT as nat, |s: int| false));
        measured
    }

    /// A result always holds one bit for each slot.
    pub proof fn lemma_len(&self)
        ensures
            self@.len() == SLOT_COUNT,
    {
    }

    /// The bit stored at slot `n`.
    pub fn get(&self, n: u32) -> (bit: bool)
        requires
            n < SLOT_COUNT,
        ensures
            bit == self@[n as int],
    {
        self.0[n as usize]
    }

    /// Stores `bit` at slot `n`.
    pub fn set(&mut self, n: u32, bit: bool)
        requires
            n < SLOT_COUNT,
        ensures
            final(self)@ == old(self)@.update(n as int, bit),
    {
        self.0[n as usize] = bit;
    }
}

} // verus!
