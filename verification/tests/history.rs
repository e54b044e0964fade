use rapid_recorder::defaults::DefaultIndexDimmension;
use rapid_recorder::event::RREvent;
use rapid_recorder::event::RawRREvent;
use rapid_recorder::history::keep_popped;
use rapid_recorder::history::organize_events;
use rapid_recorder::named_usize::ValidRapidRecorderNamedUsize;
use rapid_recorder::RRDuplicateEventIdHandling;
use std::collections::HashMap;

#[derive(Clone, Copy, Debug, PartialEq, Eq, Hash)]
enum Reading {
    Speed,
    Height,
    Load,
}

impl ValidRapidRecorderNamedUsize for Reading {
    fn index(self) -> usize {
        match self {
            Reading::Speed => 0,
            Reading::Height => 1,
            Reading::Load => 2,
        }
    }

    fn from_index(i: usize) -> Option<Self> {
        match i {
            0 => Some(Reading::Speed),
            1 => Some(Reading::Height),
            2 => Some(Reading::Load),
            _ => None,
        }
    }

    fn variants() -> Vec<Self> {
        vec![Reading::Speed, Reading::Height, Reading::Load]
    }
}

type Event = RREvent<Reading, DefaultIndexDimmension>;
type History = HashMap<usize, Vec<Event>>;

const STEP: usize = 1;
const RUN: usize = 2;

// An event of the given dimension and id whose only written slot is `Speed`, holding `mark`.
fn marked(id_type: usize, record_id: usize, mark: f64) -> RawRREvent {
    RawRREvent {
        readings: vec![mark.to_bits(), 0, 0],
        changed: vec![true, false, false],
        record_id,
        id_type,
    }
}

fn ids_and_marks(group: &Vec<Event>) -> Vec<(usize, f64)> {
    group
        .iter()
        .map(|event| (event.id, f64::from_bits(event.get(Reading::Speed).unwrap())))
        .collect()
}

fn pushed() -> Vec<RawRREvent> {
    vec![
        marked(STEP, 3, 0.5),
        marked(STEP, 1, 1.5),
        marked(RUN, 8, 2.5),
        marked(STEP, 2, 3.5),
        marked(STEP, 1, 4.5),
        marked(RUN, 8, 5.5),
        marked(STEP, 3, 6.5),
        marked(STEP, 1, 7.5),
    ]
}

#[test]
fn raw_event_is_read_by_names() {
    let raw = RawRREvent {
        readings: vec![10.0f64.to_bits(), 20.0f64.to_bits(), 30.0f64.to_bits()],
        changed: vec![true, false, true],
        record_id: 4,
        id_type: 6,
    };
    assert!(raw.fits_types::<Reading, DefaultIndexDimmension>());
    let event: Event = raw.to_rr_event().unwrap();
    assert_eq!(event.id, 4);
    assert_eq!(event.iteration_index, DefaultIndexDimmension::PositionX);
    assert_eq!(
        event.values,
        vec![(Reading::Speed, 10.0f64.to_bits()), (Reading::Load, 30.0f64.to_bits())]
    );
    assert_eq!(event.get(Reading::Speed).map(f64::from_bits), Some(10.0));
    assert_eq!(event.get(Reading::Height), None);
    assert_eq!(event.get(Reading::Load).map(f64::from_bits), Some(30.0));
}

#[test]
fn raw_event_without_written_slots_gives_no_values() {
    let raw =
        RawRREvent { readings: vec![1, 2, 3], changed: vec![false; 3], record_id: 0, id_type: 0 };
    let event: Event = raw.to_rr_event().unwrap();
    assert!(event.values.is_empty());
    assert_eq!(event.get(Reading::Speed), None);
    assert_eq!(event.iteration_index, DefaultIndexDimmension::Time);
}

#[test]
fn raw_event_with_a_written_slot_without_name_is_not_read() {
    let raw = RawRREvent {
        readings: vec![1, 2, 3, 4],
        changed: vec![true, true, true, true],
        record_id: 0,
        id_type: 0,
    };
    assert!(!raw.fits_types::<Reading, DefaultIndexDimmension>());
    assert!(raw.to_rr_event::<Reading, DefaultIndexDimmension>().is_none());

    // the same slots, the one without a name not written
    let raw = RawRREvent {
        readings: vec![1, 2, 3, 4],
        changed: vec![true, true, true, false],
        record_id: 0,
        id_type: 0,
    };
    assert!(raw.fits_types::<Reading, DefaultIndexDimmension>());
    assert_eq!(raw.to_rr_event::<Reading, DefaultIndexDimmension>().unwrap().values.len(), 3);
}

#[test]
fn raw_event_of_an_unknown_dimension_is_not_read() {
    let raw = marked(10, 1, 0.0);
    assert!(!raw.fits_types::<Reading, DefaultIndexDimmension>());
    assert!(raw.to_rr_event::<Reading, DefaultIndexDimmension>().is_none());
}

#[test]
fn raw_event_with_too_few_flags_is_not_read() {
    let raw =
        RawRREvent { readings: vec![1, 2, 3], changed: vec![false, false], record_id: 0, id_type: 0 };
    assert!(!raw.fits_types::<Reading, DefaultIndexDimmension>());
    assert!(raw.to_rr_event::<Reading, DefaultIndexDimmension>().is_none());

    // more flags than readings are ignored
    let raw = RawRREvent {
        readings: vec![1, 2],
        changed: vec![false, true, true, true, true],
        record_id: 0,
        id_type: 0,
    };
    let event: Event = raw.to_rr_event().unwrap();
    assert_eq!(event.values, vec![(Reading::Height, 2)]);
}

#[test]
fn keep_both_orders_by_id_and_then_by_push_order() {
    let history: History = organize_events(&pushed(), RRDuplicateEventIdHandling::KeepBoth);
    assert_eq!(history.len(), 2);
    assert_eq!(
        ids_and_marks(&history[&STEP]),
        vec![(1, 1.5), (1, 4.5), (1, 7.5), (2, 3.5), (3, 0.5), (3, 6.5)]
    );
    assert_eq!(ids_and_marks(&history[&RUN]), vec![(8, 2.5), (8, 5.5)]);
    for event in &history[&STEP] {
        assert_eq!(event.iteration_index, DefaultIndexDimmension::Step);
    }
    for event in &history[&RUN] {
        assert_eq!(event.iteration_index, DefaultIndexDimmension::Run);
    }
}

#[test]
fn keep_only_first_keeps_the_earliest_pushed_of_each_id() {
    let history: History = organize_events(&pushed(), RRDuplicateEventIdHandling::KeepOnlyFirst);
    assert_eq!(history.len(), 2);
    assert_eq!(ids_and_marks(&history[&STEP]), vec![(1, 1.5), (2, 3.5), (3, 0.5)]);
    assert_eq!(ids_and_marks(&history[&RUN]), vec![(8, 2.5)]);
}

#[test]
fn keep_only_last_keeps_the_latest_pushed_of_each_id() {
    let history: History = organize_events(&pushed(), RRDuplicateEventIdHandling::KeepOnlyLast);
    assert_eq!(history.len(), 2);
    assert_eq!(ids_and_marks(&history[&STEP]), vec![(1, 7.5), (2, 3.5), (3, 6.5)]);
    assert_eq!(ids_and_marks(&history[&RUN]), vec![(8, 5.5)]);
}

#[test]
fn groups_come_out_sorted_by_id() {
    let mut events = Vec::new();
    let mut id = 17usize;
    for n in 0..200 {
        id = (id * 31 + 7) % 23;
        events.push(marked(n % 3, id, n as f64));
    }
    for handling in [
        RRDuplicateEventIdHandling::KeepBoth,
        RRDuplicateEventIdHandling::KeepOnlyFirst,
        RRDuplicateEventIdHandling::KeepOnlyLast,
    ] {
        let history: History = organize_events(&events, handling);
        assert_eq!(history.len(), 3);
        let mut total = 0;
        for (key, group) in &history {
            total += group.len();
            for pair in group.windows(2) {
                assert!(pair[0].id <= pair[1].id);
                if handling != RRDuplicateEventIdHandling::KeepBoth {
                    assert!(pair[0].id < pair[1].id);
                }
            }
            for event in group {
                assert_eq!(event.iteration_index.index(), *key);
            }
        }
        if handling == RRDuplicateEventIdHandling::KeepBoth {
            assert_eq!(total, 200);
        }
    }
}

#[test]
fn same_ids_in_different_groups_do_not_meet() {
    let events = vec![marked(STEP, 1, 1.0), marked(RUN, 1, 2.0), marked(STEP, 1, 3.0)];
    let history: History = organize_events(&events, RRDuplicateEventIdHandling::KeepOnlyFirst);
    assert_eq!(ids_and_marks(&history[&STEP]), vec![(1, 1.0)]);
    assert_eq!(ids_and_marks(&history[&RUN]), vec![(1, 2.0)]);
}

#[test]
fn events_that_cannot_be_read_are_left_out() {
    let events = vec![
        marked(STEP, 2, 1.0),
        marked(77, 1, 2.0),
        RawRREvent { readings: vec![0, 0, 0], changed: vec![], record_id: 1, id_type: STEP },
        marked(STEP, 1, 3.0),
    ];
    let history: History = organize_events(&events, RRDuplicateEventIdHandling::KeepBoth);
    assert_eq!(history.len(), 1);
    assert_eq!(ids_and_marks(&history[&STEP]), vec![(1, 3.0), (2, 1.0)]);
}

#[test]
fn no_events_no_groups() {
    let history: History = organize_events(&Vec::new(), RRDuplicateEventIdHandling::KeepBoth);
    assert!(history.is_empty());
}

#[test]
fn an_empty_answer_is_read_as_nothing() {
    assert!(RawRREvent::read_popped::<Reading, DefaultIndexDimmension>(None).is_none());
}

#[test]
fn an_answer_with_an_event_is_read_by_names() {
    let event: Event = RawRREvent::read_popped(Some(marked(STEP, 12, 0.75))).unwrap();
    assert_eq!(event.id, 12);
    assert_eq!(event.iteration_index, DefaultIndexDimmension::Step);
    assert_eq!(event.values, vec![(Reading::Speed, 0.75f64.to_bits())]);
}

#[test]
fn an_answer_with_an_event_that_does_not_fit_is_read_as_nothing() {
    assert!(RawRREvent::read_popped::<Reading, DefaultIndexDimmension>(Some(marked(10, 1, 0.0)))
        .is_none());
}

#[test]
fn answers_are_kept_until_the_first_empty_one() {
    let mut events = Vec::new();
    assert!(keep_popped(&mut events, Some(marked(STEP, 4, 1.0))));
    assert!(keep_popped(&mut events, Some(marked(RUN, 2, 2.0))));
    assert!(!keep_popped(&mut events, None));
    let taken: Vec<(usize, usize)> =
        events.iter().map(|event| (event.id_type, event.record_id)).collect();
    assert_eq!(taken, vec![(STEP, 4), (RUN, 2)]);
}
