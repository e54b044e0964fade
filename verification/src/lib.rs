//! Cheap recording of named scalar readings from deeply nested, multi-threaded code.
//!
//! A [`RapidRecorder`] owns one slot per reading name and a bounded history.
//! Group handles write readings into the slots from any thread; when a group
//! starts its next record, the slots are snapshotted into the history. Later
//! the history is taken out, by names, grouped and ordered.
//!
//! A reading is a 64-bit float. This crate carries it as its bit pattern, a
//! `u64`, and never computes with it.

use vstd::prelude::*;
use crossbeam::queue::ArrayQueue;
use std::collections::HashMap;
use std::marker::PhantomData;
use crate::event::RREvent;
use crate::event::RawRREvent;
use crate::group::RapidRecorderGroup;
use crate::group_handle::RapidRecorderGroupHandle;
use crate::history::is_history_of;
use crate::history::organize_events;
use crate::latest_reading_holder::LatestReadingHolder;
use crate::named_usize::fault_of;
use crate::named_usize::first_fault_at;
use crate::named_usize::is_dense;
use crate::named_usize::names_enumerated;
use crate::named_usize::validate_enum_for_recorder;
use crate::named_usize::variant_count;
use crate::named_usize::NamedUsizeError;
use crate::named_usize::ValidRapidRecorderNamedUsize;

pub mod defaults;
pub mod event;
pub mod group;
pub mod group_handle;
pub mod history;
pub mod history_laws;
pub mod latest_reading_holder;
pub mod named_usize;
pub mod prelude;

verus! {

/// How retrieval treats several events of one group that carry the same id.
#[derive(Clone, Copy, Debug, PartialEq, Eq, Structural)]
pub enum RRDuplicateEventIdHandling {
    /// Of the events with one id, only the first that was pushed stays.
    KeepOnlyFirst,
    /// Of the events with one id, only the last that was pushed stays.
    KeepOnlyLast,
    /// Every event stays.
    KeepBoth,
}

/// Why a recorder was not built.
#[derive(Clone, Copy, Debug, PartialEq, Eq, Structural)]
pub enum RecorderError {
    /// The reading names cannot name slots.
    InvalidReadingNames(NamedUsizeError),
    /// The reading names can name slots, but there are `actual` of them and
    /// not `declared`.
    CountMismatch { declared: usize, actual: usize },
}

/// The longest history a recorder can be built with. The history is laid out
/// as one buffer when the recorder is built, and a buffer of up to this many
/// events is within what an allocation may span.
pub const MAX_HISTORY_LENGTH: usize = usize::MAX / 256;

/// `ArrayQueue` of crossbeam: a bounded queue that many threads push to and
/// pop from through a shared reference. Nothing of its inside is known here.
#[verifier::external_type_specification]
#[verifier::external_body]
#[verifier::reject_recursive_types(T)]
pub struct ExArrayQueue<T>(ArrayQueue<T>);

/// `ArrayQueue::new` of crossbeam: a queue of the given capacity. It panics
/// on a capacity of zero and on one whose buffer cannot be laid out; both are
/// left out here. Nothing is claimed of the queue.
#[verifier::external_body]
fn new_queue(capacity: usize) -> (queue: ArrayQueue<RawRREvent>)
    requires
        0 < capacity <= MAX_HISTORY_LENGTH,
{
    ArrayQueue::new(capacity)
}

/// `ArrayQueue::push` of crossbeam: where the queue is full, the value comes
/// back as the error. The queue is shared, so nothing is claimed of what it
/// holds before or after.
pub assume_specification<T>[ ArrayQueue::<T>::push ](queue: &ArrayQueue<T>, value: T) -> (pushed:
    Result<(), T>)
    ensures
        pushed matches Err(back) ==> back == value,
;

/// `ArrayQueue::pop` of crossbeam: the oldest value of the queue, or `None`
/// where it is empty. The queue is shared, so nothing is claimed of the value.
pub assume_specification<T>[ ArrayQueue::<T>::pop ](queue: &ArrayQueue<T>) -> (popped: Option<T>);

/// The recorder: the slots that readings are written to, and the bounded
/// history of snapshots.
///
/// `IndexDimmension` names the axes that records are numbered along,
/// `ReadingName` the readings. The reading names are checked when the recorder
/// is built: they stand for the slot numbers, so every name of a recorder that
/// exists is a slot.
///
/// The history holds as many events as the recorder was built for. A
/// recorder built for none keeps no snapshot at all.
pub struct RapidRecorder<
    IndexDimmension: ValidRapidRecorderNamedUsize,
    ReadingName: ValidRapidRecorderNamedUsize,
> {
    buffer: ArrayQueue<RawRREvent>,
    history_length: usize,
    latest_readings: LatestReadingHolder,
    phantom: PhantomData<IndexDimmension>,
    phantom2: PhantomData<ReadingName>,
}

/// What [`RapidRecorder::new`] answers with where it does not build.
pub open spec fn is_refusal<ReadingName: ValidRapidRecorderNamedUsize>(
    error: RecorderError,
    declared: usize,
) -> bool {
    match error {
        RecorderError::InvalidReadingNames(fault) => exists|k: int|
            #![trigger ReadingName::spec_variants()[k]]
            first_fault_at::<ReadingName>(k) && fault_of(ReadingName::spec_variants()[k]) == Some(
                fault,
            ),
        RecorderError::CountMismatch { declared: d, actual } => {
            &&& is_dense::<ReadingName>()
            &&& d == declared
            &&& actual == variant_count::<ReadingName>()
            &&& d != actual
        },
    }
}

impl<
    IterationIndex: ValidRapidRecorderNamedUsize,
    ReadingName: ValidRapidRecorderNamedUsize,
> RapidRecorder<IterationIndex, ReadingName> {
    #[verifier::type_invariant]
    spec fn names_are_slots(self) -> bool {
        &&& is_dense::<ReadingName>()
        &&& names_enumerated::<ReadingName>()
        &&& self.latest_readings.spec_capacity() == variant_count::<ReadingName>()
    }

    /// The number of reading slots.
    pub closed spec fn reading_slots(&self) -> usize {
        self.latest_readings.spec_capacity()
    }

    /// The history, as the queue it is kept in.
    pub closed spec fn history(&self) -> ArrayQueue<RawRREvent> {
        self.buffer
    }

    /// The number of events the history can hold: the number the recorder
    /// was built for.
    pub closed spec fn max_history_length(&self) -> usize {
        self.history_length
    }

    /// The number of reading slots, which is the number of reading names:
    /// every reading name of a recorder is one of its slots.
    pub fn max_reading_types(&self) -> (slots: usize)
        ensures
            slots == self.reading_slots(),
            slots == variant_count::<ReadingName>(),
            is_dense::<ReadingName>(),
            names_enumerated::<ReadingName>(),
    {
        proof {
            use_type_invariant(self);
        }
        self.latest_readings.capacity()
    }

    /// Builds a recorder whose history holds `max_history_length` events and
    /// whose readings are the `max_reading_types` names of `ReadingName`.
    ///
    /// It is refused where the names cannot name slots, and where they can
    /// but `max_reading_types` is not their number. The history may be of any
    /// length up to [`MAX_HISTORY_LENGTH`], none included.
    pub fn new(max_history_length: usize, max_reading_types: usize) -> (made: Result<
        Self,
        RecorderError,
    >)
        requires
            max_history_length <= MAX_HISTORY_LENGTH,
        ensures
            made is Ok <==> is_dense::<ReadingName>() && max_reading_types == variant_count::<
                ReadingName,
            >(),
            made matches Ok(recorder) ==> recorder.reading_slots() == max_reading_types
                && recorder.max_history_length() == max_history_length,
            made matches Err(error) ==> is_refusal::<ReadingName>(error, max_reading_types),
    {
        let actual_count = match validate_enum_for_recorder::<ReadingName>() {
            Ok(count) => count,
            Err(fault) => {
                return Err(RecorderError::InvalidReadingNames(fault));
            },
        };
        if max_reading_types != actual_count {
            return Err(
                RecorderError::CountMismatch { declared: max_reading_types, actual: actual_count },
            );
        }
        // a queue cannot be made for no event; the one made then is never pushed to
        let queue_length = if max_history_length == 0 {
            1
        } else {
            max_history_length
        };
        Ok(
            Self {
                buffer: new_queue(queue_length),
                history_length: max_history_length,
                latest_readings: LatestReadingHolder::new(max_reading_types),
                phantom: PhantomData,
                phantom2: PhantomData,
            },
        )
    }

    /// A handle for the records of one group. The group must have both its
    /// sampling frequency and its index dimension set.
    pub fn add_group<SampleRate: ValidRapidRecorderNamedUsize>(
        &self,
        group: RapidRecorderGroup<SampleRate, IterationIndex>,
    ) -> (handle: RapidRecorderGroupHandle<'_, SampleRate, ReadingName, IterationIndex>)
        requires
            group.is_complete(),
        ensures
            handle.group() == group,
            handle.recorder() == self,
            handle.sample_rate() == group.sample_rate_value.unwrap(),
            handle.open_record() is None,
            handle.saving(),
    {
        RapidRecorderGroupHandle::new(group, self)
    }

    /// The history as it is kept: a queue of raw events, oldest first. It is
    /// neither grouped nor ordered by id, and may hold several events with one
    /// id.
    pub fn raw_history(&self) -> (queue: &ArrayQueue<RawRREvent>)
        ensures
            *queue == self.history(),
    {
        &self.buffer
    }

    /// Takes the oldest event out of the history and reads it by names.
    ///
    /// `None` where the history is empty, and where the event taken out cannot
    /// be read with the recorder's types.
    pub fn convenient_pop(&self) -> (event: Option<RREvent<ReadingName, IterationIndex>>)
        ensures
            event matches Some(ev) ==> exists|raw: RawRREvent|
                #![trigger raw.structured::<ReadingName, IterationIndex>()]
                raw.fits::<ReadingName, IterationIndex>() && ev@ == raw.structured::<
                    ReadingName,
                    IterationIndex,
                >(),
    {
        let popped = self.buffer.pop();
        let event = RawRREvent::read_popped(popped);
        assert(event is Some ==> popped->Some_0.fits::<ReadingName, IterationIndex>());
        event
    }

    /// Takes every event out of the history, oldest first. It stops at the
    /// first time the history is found empty, and after as many events as the
    /// history can hold.
    pub fn drain_history(&self) -> (events: Vec<RawRREvent>)
        ensures
            events.len() <= self.max_history_length(),
    {
        let limit = self.history_length;
        let mut events: Vec<RawRREvent> = Vec::new();
        while events.len() < limit
            invariant
                events.len() <= limit,
            decreases limit - events.len(),
        {
            let more = crate::history::keep_popped(&mut events, self.buffer.pop());
            if !more {
                break ;
            }
        }
        events
    }

    /// Takes every event out of the history and hands them out by index
    /// dimension, each group ordered by id. Events with the same id all stay,
    /// in the order they were pushed.
    pub fn sorted_history(&self) -> (sorted: HashMap<
        usize,
        Vec<RREvent<ReadingName, IterationIndex>>,
    >)
        ensures
            exists|events: Seq<RawRREvent>|
                #![trigger is_history_of(sorted@, events, RRDuplicateEventIdHandling::KeepBoth)]
                events.len() <= self.max_history_length() && is_history_of(
                    sorted@,
                    events,
                    RRDuplicateEventIdHandling::KeepBoth,
                ),
    {
        self.sorted_history_with_duplicate_handling(RRDuplicateEventIdHandling::KeepBoth)
    }

    /// Takes every event out of the history and hands them out by index
    /// dimension, each group ordered by id. What happens to events of one
    /// group with the same id is up to `duplicate_event_id_handling`.
    pub fn sorted_history_with_duplicate_handling(
        &self,
        duplicate_event_id_handling: RRDuplicateEventIdHandling,
    ) -> (sorted: HashMap<usize, Vec<RREvent<ReadingName, IterationIndex>>>)
        ensures
            exists|events: Seq<RawRREvent>|
                #![trigger is_history_of(sorted@, events, duplicate_event_id_handling)]
                events.len() <= self.max_history_length() && is_history_of(
                    sorted@,
                    events,
                    duplicate_event_id_handling,
                ),
    {
        let events = self.drain_history();
        let sorted = organize_events(&events, duplicate_event_id_handling);
        assert(is_history_of(sorted@, events@, duplicate_event_id_handling));
        sorted
    }

    /// Writes `value`, the bit pattern of a float, to the slot `variable_name`.
    pub fn _add_reading(&self, variable_name: usize, value: u64)
        requires
            variable_name < self.reading_slots(),
    {
        self.latest_readings.set_value(variable_name, value);
    }

    /// Snapshots the slots into an event with the given id and index
    /// dimension, and pushes it to the history. Where the history is full, the
    /// event is dropped; a history built for no event is always full.
    #[inline(always)]
    pub fn _save_event(&self, index_type: usize, id: usize) {
        let (readings, changed) = self.latest_readings.snapshot();
        let event = RawRREvent { record_id: id, id_type: index_type, readings, changed };
        if self.history_length > 0 {
            let _ = self.buffer.push(event);
        }
    }
}

} // verus!
