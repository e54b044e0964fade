//! The slots that writers race into.

use vstd::prelude::*;
use atomic_float::AtomicF64;
use std::sync::atomic::AtomicBool;
use std::sync::atomic::AtomicU64;
use std::sync::atomic::Ordering;

verus! {

/// `AtomicF64` of atomic_float: a 64-bit float that is read and written
/// atomically through a shared reference. Nothing of its inside is known here.
#[verifier::external_type_specification]
#[verifier::external_body]
pub struct ExAtomicF64(AtomicF64);

/// `AtomicF64::as_atomic_bits` of atomic_float: the same cell, seen as the
/// atomic integer that holds the bit pattern of the float. Nothing is claimed of
/// what the cell holds.
pub assume_specification[ AtomicF64::as_atomic_bits ](cell: &AtomicF64) -> (bits: &AtomicU64);

/// `AtomicF64::default` of atomic_float: a new cell. Nothing is claimed of what
/// it holds (it holds zero).
#[verifier::external_body]
fn zeroed_cell() -> AtomicF64 {
    AtomicF64::default()
}

/// One slot per reading name: the float last written, as its bit pattern, and
/// a flag that tells whether the slot was written since the last snapshot.
///
/// Writers share the holder and may race. Each slot is atomic by itself; a
/// value and its flag are not written together, and nothing orders the writes
/// to different slots. So no contract here says what a slot holds: another
/// thread may have written it in between.
pub struct LatestReadingHolder {
    readings: Vec<AtomicF64>,
    changed: Vec<AtomicBool>,
}

impl LatestReadingHolder {
    #[verifier::type_invariant]
    spec fn one_flag_per_slot(self) -> bool {
        self.readings.len() == self.changed.len()
    }

    /// The number of slots.
    pub closed spec fn spec_capacity(&self) -> usize {
        self.readings.len()
    }

    /// The number of slots.
    #[verifier::when_used_as_spec(spec_capacity)]
    pub fn capacity(&self) -> (slots: usize)
        ensures
            slots == self.spec_capacity(),
    {
        self.readings.len()
    }

    /// A holder with `capacity` slots, none of them written.
    pub fn new(capacity: usize) -> (holder: Self)
        ensures
            holder.spec_capacity() == capacity,
    {
        let mut readings: Vec<AtomicF64> = Vec::new();
        let mut changed: Vec<AtomicBool> = Vec::new();
        let mut i: usize = 0;
        while i < capacity
            invariant
                i <= capacity,
                readings.len() == i,
                changed.len() == i,
            decreases capacity - i,
        {
            readings.push(zeroed_cell());
            changed.push(AtomicBool::new(false));
            i += 1;
        }
        Self { readings, changed }
    }

    /// Writes `value`, the bit pattern of a float, to slot `index` and marks
    /// the slot as written.
    pub fn set_value(&self, index: usize, value: u64)
        requires
            index < self.spec_capacity(),
    {
        proof {
            use_type_invariant(self);
        }
        self.readings[index].as_atomic_bits().store(value, Ordering::Relaxed);
        self.changed[index].store(true, Ordering::Relaxed);
    }

    /// Reads every slot and takes its flag, which leaves the flag cleared.
    /// The first vector holds the values, the second the flags, both in slot
    /// order.
    pub fn snapshot(&self) -> (snapshot: (Vec<u64>, Vec<bool>))
        ensures
            snapshot.0.len() == self.spec_capacity(),
            snapshot.1.len() == self.spec_capacity(),
    {
        proof {
            use_type_invariant(self);
        }
        let slots = self.readings.len();
        let mut values: Vec<u64> = Vec::new();
        let mut i: usize = 0;
        while i < slots
            invariant
                slots == self.readings.len(),
                i <= slots,
                values.len() == i,
            decreases slots - i,
        {
            values.push(self.readings[i].as_atomic_bits().load(Ordering::Relaxed));
            i += 1;
        }
        let mut flags: Vec<bool> = Vec::new();
        let mut k: usize = 0;
        while k < slots
            invariant
                slots == self.changed.len(),
                k <= slots,
                flags.len() == k,
            decreases slots - k,
        {
            flags.push(self.changed[k].swap(false, Ordering::Relaxed));
            k += 1;
        }
        (values, flags)
    }
}

} // verus!
