//! What a flush captures, and the name-keyed form it is read in.

use vstd::prelude::*;
use crate::named_usize::is_dense;
use crate::named_usize::lemma_dense_slots_are_names;
use crate::named_usize::names_enumerated;
use crate::named_usize::variant_count;
use crate::named_usize::ValidRapidRecorderNamedUsize;

verus! {

/// One snapshot of the reading slots.
///
/// `readings[i]` is the bit pattern of the 64-bit float last written to slot
/// `i`, and `changed[i]` tells whether the slot was written since the snapshot
/// before. `record_id` is the id the record was started with, `id_type` the
/// integer of the index dimension of the group that took the snapshot.
pub struct RawRREvent {
    pub readings: Vec<u64>,
    pub changed: Vec<bool>,
    pub record_id: usize,
    pub id_type: usize,
}

/// A snapshot by names: the readings that were written, each with the name of
/// its slot, in slot order.
pub struct RREvent<
    ReadingName: ValidRapidRecorderNamedUsize,
    IndexDimmension: ValidRapidRecorderNamedUsize,
> {
    pub values: Vec<(ReadingName, u64)>,
    pub id: usize,
    pub iteration_index: IndexDimmension,
}

/// What an [`RREvent`] holds, as plain values.
pub struct RREventView<ReadingName, IndexDimmension> {
    pub values: Seq<(ReadingName, u64)>,
    pub id: usize,
    pub iteration_index: IndexDimmension,
}

impl<
    ReadingName: ValidRapidRecorderNamedUsize,
    IndexDimmension: ValidRapidRecorderNamedUsize,
> View for RREvent<ReadingName, IndexDimmension> {
    type V = RREventView<ReadingName, IndexDimmension>;

    open spec fn view(&self) -> Self::V {
        RREventView { values: self.values@, id: self.id, iteration_index: self.iteration_index }
    }
}

/// The value of the first entry, from position `from` on, whose name stands
/// for `index`.
pub open spec fn first_value_from<ReadingName: ValidRapidRecorderNamedUsize>(
    values: Seq<(ReadingName, u64)>,
    index: usize,
    from: int,
) -> Option<u64>
    decreases values.len() - from,
{
    if from < 0 || from >= values.len() {
        None
    } else if values[from].0.spec_index() == index {
        Some(values[from].1)
    } else {
        first_value_from(values, index, from + 1)
    }
}

impl<ReadingName, IndexDimmension> RREventView<ReadingName, IndexDimmension> where
    ReadingName: ValidRapidRecorderNamedUsize,
    IndexDimmension: ValidRapidRecorderNamedUsize,
 {
    /// The reading recorded under `name`, if one was.
    pub open spec fn reading(self, name: ReadingName) -> Option<u64> {
        first_value_from(self.values, name.spec_index(), 0)
    }
}

impl<
    ReadingName: ValidRapidRecorderNamedUsize,
    IndexDimmension: ValidRapidRecorderNamedUsize,
> RREvent<ReadingName, IndexDimmension> {
    /// The reading recorded under `name`, if one was: the bit pattern of the
    /// float.
    pub fn get(&self, name: ReadingName) -> (value: Option<u64>)
        ensures
            value == self@.reading(name),
    {
        let index = name.index();
        let mut at: usize = 0;
        while at < self.values.len()
            invariant
                at <= self.values.len(),
                index == name.spec_index(),
                first_value_from(self@.values, index, 0) == first_value_from(
                    self@.values,
                    index,
                    at as int,
                ),
            decreases self.values.len() - at,
        {
            let entry = self.values[at];
            if entry.0.index() == index {
                return Some(entry.1);
            }
            at += 1;
        }
        None
    }
}

impl RawRREvent {
    /// The slots that were written, in ascending order.
    pub open spec fn touched_slots(self) -> Seq<int> {
        self.touched_slots_below(self.readings.len() as int)
    }

    /// The slots below `n` that were written, in ascending order.
    pub open spec fn touched_slots_below(self, n: int) -> Seq<int> {
        Seq::new(n as nat, |i: int| i).filter(|i: int| self.changed[i])
    }

    /// The entry that slot `i` gives: the slot's name and its reading.
    pub open spec fn entry<ReadingName: ValidRapidRecorderNamedUsize>(self, i: int) -> (
        ReadingName,
        u64,
    ) {
        (ReadingName::spec_from_index(i as usize).unwrap(), self.readings[i])
    }

    /// The event can be read with these two types: there is a flag for every
    /// reading, a name for every written slot, and an index dimension for
    /// `id_type`.
    pub open spec fn fits<
        ReadingName: ValidRapidRecorderNamedUsize,
        IndexDimmension: ValidRapidRecorderNamedUsize,
    >(self) -> bool {
        &&& self.readings.len() <= self.changed.len()
        &&& IndexDimmension::spec_from_index(self.id_type) is Some
        &&& forall|i: int|
            0 <= i < self.readings.len() && self.changed[i]
                ==> #[trigger] ReadingName::spec_from_index(i as usize) is Some
    }

    /// The event by names: one entry per written slot, in slot order.
    pub open spec fn structured<
        ReadingName: ValidRapidRecorderNamedUsize,
        IndexDimmension: ValidRapidRecorderNamedUsize,
    >(self) -> RREventView<ReadingName, IndexDimmension> {
        RREventView {
            values: self.touched_slots().map_values(|i: int| self.entry::<ReadingName>(i)),
            id: self.record_id,
            iteration_index: IndexDimmension::spec_from_index(self.id_type).unwrap(),
        }
    }

    /// Whether the event can be read with these two types.
    pub fn fits_types<
        ReadingName: ValidRapidRecorderNamedUsize,
        IndexDimmension: ValidRapidRecorderNamedUsize,
    >(&self) -> (ok: bool)
        ensures
            ok == self.fits::<ReadingName, IndexDimmension>(),
    {
        if self.changed.len() < self.readings.len() {
            return false;
        }
        if IndexDimmension::from_index(self.id_type).is_none() {
            return false;
        }
        let mut i: usize = 0;
        while i < self.readings.len()
            invariant
                i <= self.readings.len() <= self.changed.len(),
                forall|j: int|
                    0 <= j < i && self.changed[j] ==> #[trigger] ReadingName::spec_from_index(
                        j as usize,
                    ) is Some,
            decreases self.readings.len() - i,
        {
            if self.changed[i] && ReadingName::from_index(i).is_none() {
                assert(ReadingName::spec_from_index(i as usize) is None);
                return false;
            }
            i += 1;
        }
        true
    }

    /// Reads what a history answered when asked for its oldest event: the
    /// event by names, where there was one and it fits the two types; `None`
    /// where the history was empty, and where the event does not fit.
    pub fn read_popped<
        ReadingName: ValidRapidRecorderNamedUsize,
        IndexDimmension: ValidRapidRecorderNamedUsize,
    >(popped: Option<RawRREvent>) -> (event: Option<RREvent<ReadingName, IndexDimmension>>)
        ensures
            event is Some <==> (popped matches Some(raw) && raw.fits::<
                ReadingName,
                IndexDimmension,
            >()),
            event matches Some(ev) ==> (popped matches Some(raw) && ev@ == raw.structured::<
                ReadingName,
                IndexDimmension,
            >()),
    {
        match popped {
            Some(raw) => raw.to_rr_event(),
            None => None,
        }
    }

    /// Reads the event by names. `None` where it does not fit the two types.
    pub fn to_rr_event<
        ReadingName: ValidRapidRecorderNamedUsize,
        IndexDimmension: ValidRapidRecorderNamedUsize,
    >(&self) -> (event: Option<RREvent<ReadingName, IndexDimmension>>)
        ensures
            event is Some <==> self.fits::<ReadingName, IndexDimmension>(),
            event matches Some(ev) ==> ev@ == self.structured::<ReadingName, IndexDimmension>(),
    {
        if self.changed.len() < self.readings.len() {
            return None;
        }
        let iteration_index = match IndexDimmension::from_index(self.id_type) {
            Some(dimension) => dimension,
            None => {
                return None;
            },
        };
        let mut values: Vec<(ReadingName, u64)> = Vec::new();
        let mut i: usize = 0;
        proof {
            reveal(Seq::filter);
            assert(self.touched_slots_below(0) =~= Seq::<int>::empty());
        }
        while i < self.readings.len()
            invariant
                i <= self.readings.len() <= self.changed.len(),
                forall|j: int|
                    0 <= j < i && self.changed[j] ==> #[trigger] ReadingName::spec_from_index(
                        j as usize,
                    ) is Some,
                values@ == self.touched_slots_below(i as int).map_values(
                    |j: int| self.entry::<ReadingName>(j),
                ),
            decreases self.readings.len() - i,
        {
            proof {
                let before = Seq::new(i as nat, |j: int| j);
                assert(Seq::new((i + 1) as nat, |j: int| j) =~= before.push(i as int));
                before.lemma_filter_push(i as int, |j: int| self.changed[j]);
            }
            if self.changed[i] {
                match ReadingName::from_index(i) {
                    Some(name) => {
                        values.push((name, self.readings[i]));
                        proof {
                            let slots = self.touched_slots_below(i as int);
                            assert(slots.push(i as int).map_values(
                                |j: int| self.entry::<ReadingName>(j),
                            ) =~= slots.map_values(|j: int| self.entry::<ReadingName>(j)).push(
                                self.entry::<ReadingName>(i as int),
                            ));
                        }
                    },
                    None => {
                        assert(ReadingName::spec_from_index(i as usize) is None);
                        return None;
                    },
                }
            }
            i += 1;
        }
        Some(RREvent { values, id: self.record_id, iteration_index })
    }
}

/// What a search for the first entry of an integer finds.
proof fn lemma_first_value_from<ReadingName: ValidRapidRecorderNamedUsize>(
    values: Seq<(ReadingName, u64)>,
    index: usize,
    from: int,
)
    requires
        0 <= from,
    ensures
        match first_value_from(values, index, from) {
            Some(value) => exists|j: int|
                from <= j < values.len() && (#[trigger] values[j]).0.spec_index() == index
                    && values[j].1 == value,
            None => forall|j: int|
                from <= j < values.len() ==> (#[trigger] values[j]).0.spec_index() != index,
        },
    decreases values.len() - from,
{
    if from < values.len() && values[from].0.spec_index() != index {
        lemma_first_value_from(values, index, from + 1);
    }
}

/// Reading an event by names gives, under each name, what the name's slot
/// holds: the reading of the slot where the slot was written, and nothing
/// where it was not. This holds where the reading names are dense and the
/// event has no more slots than there are names.
pub proof fn lemma_reading_is_slot<
    ReadingName: ValidRapidRecorderNamedUsize,
    IndexDimmension: ValidRapidRecorderNamedUsize,
>(raw: RawRREvent, name: ReadingName)
    requires
        is_dense::<ReadingName>(),
        names_enumerated::<ReadingName>(),
        raw.fits::<ReadingName, IndexDimmension>(),
        raw.readings.len() <= variant_count::<ReadingName>(),
    ensures
        raw.structured::<ReadingName, IndexDimmension>().reading(name) == if name.spec_index()
            < raw.readings.len() && raw.changed[name.spec_index() as int] {
            Some(raw.readings[name.spec_index() as int])
        } else {
            None
        },
{
    let slot = name.spec_index();
    let slots_all = Seq::new(raw.readings.len() as nat, |i: int| i);
    let written = |i: int| raw.changed[i];
    let slots = raw.touched_slots();
    let values = raw.structured::<ReadingName, IndexDimmension>().values;
    assert forall|j: int| 0 <= j < slots.len() implies {
        &&& 0 <= #[trigger] slots[j] < raw.readings.len()
        &&& raw.changed[slots[j]]
        &&& values[j].0.spec_index() == slots[j]
        &&& values[j].1 == raw.readings[slots[j]]
    } by {
        slots_all.lemma_filter_pred(written, j);
        assert(slots.contains(slots[j]));
        slots_all.lemma_filter_contains_rev(written, slots[j]);
        lemma_dense_slots_are_names::<ReadingName>(slots[j] as usize);
    }
    lemma_first_value_from(values, slot, 0);
    if slot < raw.readings.len() && raw.changed[slot as int] {
        assert(slots_all[slot as int] == slot as int);
        slots_all.lemma_filter_contains(written, slot as int);
        let j = choose|j: int| 0 <= j < slots.len() && slots[j] == slot as int;
        assert(values[j].0.spec_index() == slot);
    }
}

/// A snapshot of the slots of dense reading names can be read by those names:
/// an event with one flag per reading, no more readings than there are names,
/// and the integer of an index dimension fits the two types.
pub proof fn lemma_snapshot_fits<
    ReadingName: ValidRapidRecorderNamedUsize,
    IndexDimmension: ValidRapidRecorderNamedUsize,
>(raw: RawRREvent)
    requires
        is_dense::<ReadingName>(),
        names_enumerated::<ReadingName>(),
        raw.readings.len() == raw.changed.len(),
        raw.readings.len() <= variant_count::<ReadingName>(),
        IndexDimmension::spec_from_index(raw.id_type) is Some,
    ensures
        raw.fits::<ReadingName, IndexDimmension>(),
{
    assert forall|i: int| 0 <= i < raw.readings.len() && raw.changed[i] implies (
    #[trigger] ReadingName::spec_from_index(i as usize)) is Some by {
        lemma_dense_slots_are_names::<ReadingName>(i as usize);
    }
}

/// The written slots below `n` are listed in rising order.
proof fn lemma_touched_slots_rise(raw: RawRREvent, n: int)
    requires
        0 <= n,
    ensures
        forall|a: int|
            0 <= a < raw.touched_slots_below(n).len() ==> 0 <= (
            #[trigger] raw.touched_slots_below(n)[a]) < n,
        forall|a: int, b: int|
            0 <= a < b < raw.touched_slots_below(n).len() ==> (
            #[trigger] raw.touched_slots_below(n)[a]) < (#[trigger] raw.touched_slots_below(n)[b]),
    decreases n,
{
    if n == 0 {
        reveal(Seq::filter);
        assert(raw.touched_slots_below(0) =~= Seq::<int>::empty());
    } else {
        lemma_touched_slots_rise(raw, n - 1);
        let before = Seq::new((n - 1) as nat, |i: int| i);
        assert(Seq::new(n as nat, |i: int| i) =~= before.push(n - 1));
        before.lemma_filter_push(n - 1, |i: int| raw.changed[i]);
        let earlier = raw.touched_slots_below(n - 1);
        let slots = raw.touched_slots_below(n);
        assert(slots == if raw.changed[n - 1] {
            earlier.push(n - 1)
        } else {
            earlier
        });
        assert forall|a: int| 0 <= a < slots.len() implies 0 <= (#[trigger] slots[a]) < n by {
            if a < earlier.len() {
                assert(slots[a] == earlier[a]);
            }
        }
        assert forall|a: int, b: int| 0 <= a < b < slots.len() implies (#[trigger] slots[a]) < (
        #[trigger] slots[b]) by {
            assert(slots[a] == earlier[a]);
            if b < earlier.len() {
                assert(slots[b] == earlier[b]);
            }
        }
    }
}

/// Read by dense names, an event holds at most one entry under a name: the
/// integers of the names rise along the entries. So the entries are a map
/// from names to readings, listed in slot order.
pub proof fn lemma_names_occur_once<
    ReadingName: ValidRapidRecorderNamedUsize,
    IndexDimmension: ValidRapidRecorderNamedUsize,
>(raw: RawRREvent)
    requires
        is_dense::<ReadingName>(),
        names_enumerated::<ReadingName>(),
        raw.fits::<ReadingName, IndexDimmension>(),
        raw.readings.len() <= variant_count::<ReadingName>(),
    ensures
        forall|a: int, b: int|
            0 <= a < b < raw.structured::<ReadingName, IndexDimmension>().values.len() ==> (
            #[trigger] raw.structured::<ReadingName, IndexDimmension>().values[a]).0.spec_index() < (
            #[trigger] raw.structured::<ReadingName, IndexDimmension>().values[b]).0.spec_index(),
{
    let slots = raw.touched_slots();
    let values = raw.structured::<ReadingName, IndexDimmension>().values;
    lemma_touched_slots_rise(raw, raw.readings.len() as int);
    assert forall|a: int| 0 <= a < values.len() implies (#[trigger] values[a]).0.spec_index()
        == slots[a] by {
        lemma_dense_slots_are_names::<ReadingName>(slots[a] as usize);
    }
}

} // verus!
