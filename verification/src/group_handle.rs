//! One group's records: which one is open, and whether it is kept.

use vstd::prelude::*;
use crate::group::RapidRecorderGroup;
use crate::named_usize::fault_of;
use crate::named_usize::is_dense;
use crate::named_usize::variant_count;
use crate::named_usize::ValidRapidRecorderNamedUsize;
use crate::RapidRecorder;

verus! {

/// Whether the record `id` is kept by a group that keeps one record in
/// `sample_rate`: with a rate above one, the records whose id is a multiple of
/// the rate; else whatever held before, which for a handle is "kept".
pub open spec fn keeps_record(sample_rate: usize, kept_before: bool, id: usize) -> bool {
    if sample_rate > 1 {
        id % sample_rate == 0
    } else {
        kept_before
    }
}

/// The records of one group on one recorder.
///
/// A handle is either unopened or has one open record, with its id. Starting
/// a record closes the one before. A record that is kept is snapshotted into
/// the recorder's history when it is closed; one that is not kept takes no
/// readings at all.
///
/// [`add`](Self::add) may be called from many threads at once. The other
/// operations belong to the one thread that owns the handle.
pub struct RapidRecorderGroupHandle<
    'a,
    SamplingFrequency: ValidRapidRecorderNamedUsize,
    ReadingName: ValidRapidRecorderNamedUsize,
    IndexDimmension: ValidRapidRecorderNamedUsize,
> {
    group: RapidRecorderGroup<SamplingFrequency, IndexDimmension>,
    recorder: &'a RapidRecorder<IndexDimmension, ReadingName>,
    sample_rate: usize,
    index_value: Option<usize>,
    should_save_next: bool,
}

impl<
    'a,
    SamplingFrequency: ValidRapidRecorderNamedUsize,
    ReadingName: ValidRapidRecorderNamedUsize,
    IndexDimmension: ValidRapidRecorderNamedUsize,
> RapidRecorderGroupHandle<'a, SamplingFrequency, ReadingName, IndexDimmension> {
    #[verifier::type_invariant]
    spec fn well_formed(self) -> bool {
        &&& self.group.index_type_value is Some
        &&& self.sample_rate <= 1 ==> self.should_save_next
        &&& is_dense::<ReadingName>()
        &&& self.recorder.reading_slots() == variant_count::<ReadingName>()
    }

    /// The group the handle was made for.
    pub closed spec fn group(&self) -> RapidRecorderGroup<SamplingFrequency, IndexDimmension> {
        self.group
    }

    /// The recorder the handle writes to.
    pub closed spec fn recorder(&self) -> &'a RapidRecorder<IndexDimmension, ReadingName> {
        self.recorder
    }

    /// The sampling denominator: one record in this many is kept.
    pub closed spec fn sample_rate(&self) -> usize {
        self.sample_rate
    }

    /// The id of the open record, if one is open.
    pub closed spec fn open_record(&self) -> Option<usize> {
        self.index_value
    }

    /// Whether the open record is kept. True while none is open.
    pub closed spec fn saving(&self) -> bool {
        self.should_save_next
    }

    /// The record that closing would snapshot now: the open one, where it is
    /// kept.
    pub open spec fn spec_pending_record(&self) -> Option<usize> {
        if self.saving() {
            self.open_record()
        } else {
            None
        }
    }

    /// An unopened handle for `group` on `recorder`. The group must have both
    /// its sampling frequency and its index dimension set.
    pub fn new(
        group: RapidRecorderGroup<SamplingFrequency, IndexDimmension>,
        recorder: &'a RapidRecorder<IndexDimmension, ReadingName>,
    ) -> (handle: Self)
        requires
            group.is_complete(),
        ensures
            handle.group() == group,
            handle.recorder() == recorder,
            handle.sample_rate() == group.sample_rate_value.unwrap(),
            handle.open_record() is None,
            handle.saving(),
    {
        let sample_rate = group.sample_rate_value.unwrap();
        let _ = recorder.max_reading_types();
        Self { group, recorder, sample_rate, index_value: None, should_save_next: true }
    }

    /// Writes a reading, the bit pattern of a float, to the slot of its name.
    /// Nothing is written while the open record is not kept.
    #[inline(always)]
    pub fn add(&self, reading_name: ReadingName, value: u64) {
        if self.should_save_next {
            let slot = reading_name.index();
            proof {
                use_type_invariant(self);
                assert(fault_of(reading_name) is None);
            }
            self.recorder._add_reading(slot, value);
        }
    }

    /// The record that closing would snapshot now: the open one, where it is
    /// kept.
    #[verifier::when_used_as_spec(spec_pending_record)]
    pub fn pending_record(&self) -> (pending: Option<usize>)
        ensures
            pending == self.spec_pending_record(),
    {
        if self.should_save_next {
            self.index_value
        } else {
            None
        }
    }

    /// Closes the open record and opens the record `unique_id`.
    ///
    /// The record that is closed is snapshotted into the history where it was
    /// kept. The new one is kept as [`keeps_record`] says.
    pub fn start_record(&mut self, unique_id: usize)
        ensures
            final(self).open_record() == Some(unique_id),
            final(self).saving() == keeps_record(
                old(self).sample_rate(),
                old(self).saving(),
                unique_id,
            ),
            old(self).sample_rate() <= 1 ==> final(self).saving(),
            final(self).sample_rate() == old(self).sample_rate(),
            final(self).group() == old(self).group(),
            final(self).recorder() == old(self).recorder(),
    {
        proof {
            use_type_invariant(&*self);
        }
        if let Some(closed) = self.pending_record() {
            self.save(closed);
        }
        self.index_value = Some(unique_id);
        if self.sample_rate > 1 {
            self.should_save_next = unique_id % self.sample_rate == 0;
        }
    }

    /// Snapshots the open record into the history now, where it is kept, and
    /// leaves it open. Nothing happens while no record is open, and for a
    /// record that is not kept.
    ///
    /// A later [`start_record`](Self::start_record) snapshots the record
    /// again, so that the history then holds two events with its id.
    pub fn _save_record(&self) {
        if let Some(open) = self.pending_record() {
            self.save(open);
        }
    }

    /// Closes the open record and gives the handle up. The record is
    /// snapshotted into the history where it was kept.
    pub fn finish(self) {
        if let Some(closed) = self.pending_record() {
            self.save(closed);
        }
    }

    /// Snapshots the slots into the history under the id `record`.
    fn save(&self, record: usize) {
        proof {
            use_type_invariant(self);
        }
        if let Some(index_type) = self.group.index_type_value {
            self.recorder._save_event(index_type, record);
        }
    }
}

} // verus!
