use rapid_recorder::defaults::DefaultIndexDimmension;
use rapid_recorder::defaults::DefaultSamplingFrequency;
use rapid_recorder::group::RapidRecorderGroup;
use rapid_recorder::named_usize::ValidRapidRecorderNamedUsize;
use rapid_recorder::RapidRecorder;
use rayon::iter::IntoParallelIterator;
use rayon::iter::ParallelIterator;

#[derive(Clone, Copy, Debug, PartialEq, Eq, Hash)]
enum TestReadings {
    Reading0,
    Reading1,
    Reading2,
}

impl ValidRapidRecorderNamedUsize for TestReadings {
    fn index(self) -> usize {
        match self {
            TestReadings::Reading0 => 0,
            TestReadings::Reading1 => 1,
            TestReadings::Reading2 => 2,
        }
    }

    fn from_index(i: usize) -> Option<Self> {
        match i {
            0 => Some(TestReadings::Reading0),
            1 => Some(TestReadings::Reading1),
            2 => Some(TestReadings::Reading2),
            _ => None,
        }
    }

    fn variants() -> Vec<Self> {
        vec![TestReadings::Reading0, TestReadings::Reading1, TestReadings::Reading2]
    }
}

#[test]
fn test_parallel_add() {
    // readings can be added from several threads
    let recorder: RapidRecorder<_, TestReadings> = RapidRecorder::new(1000, 3).unwrap();
    let mut group = recorder.add_group(
        RapidRecorderGroup::new()
            .sample_rate(DefaultSamplingFrequency::EveryOne)
            .index_type(DefaultIndexDimmension::Step),
    );

    group.start_record(1);

    (0..100).into_par_iter().for_each(|i| {
        let reading = match i % 3 {
            0 => TestReadings::Reading0,
            1 => TestReadings::Reading1,
            _ => TestReadings::Reading2,
        };
        group.add(reading, 5.0f64.to_bits());
    });

    // Force save
    group.start_record(2);

    // Verify we have one event
    let event = recorder.convenient_pop().unwrap();
    assert_eq!(event.id, 1);

    // At least one reading should be present
    assert!(
        event.get(TestReadings::Reading0).is_some()
            || event.get(TestReadings::Reading1).is_some()
            || event.get(TestReadings::Reading2).is_some()
    );
}

#[test]
fn test_parallel_multi_level() {
    // nested parallel code
    let recorder: RapidRecorder<_, TestReadings> = RapidRecorder::new(1000, 3).unwrap();
    let mut group = recorder.add_group(
        RapidRecorderGroup::new()
            .sample_rate(DefaultSamplingFrequency::EveryOne)
            .index_type(DefaultIndexDimmension::Step),
    );

    group.start_record(1);

    // Top-level parallel
    (0..3).into_par_iter().for_each(|j| {
        match j {
            0 => {
                group.add(TestReadings::Reading0, 5.0f64.to_bits());
            }
            1 => {
                group.add(TestReadings::Reading1, 10.0f64.to_bits());
            }
            2 => {
                // Nested parallel
                (0..3).into_par_iter().for_each(|k| match k {
                    0 => {
                        group.add(TestReadings::Reading0, 15.0f64.to_bits());
                    }
                    1 => {
                        group.add(TestReadings::Reading1, 20.0f64.to_bits());
                    }
                    _ => {
                        group.add(TestReadings::Reading2, 25.0f64.to_bits());
                    }
                });
                group.add(TestReadings::Reading2, 30.0f64.to_bits());
            }
            _ => {}
        }
    });

    // Force save
    group.start_record(2);

    // Verify we recorded something
    assert_eq!(recorder.raw_history().len(), 1);
}

#[test]
fn a_racing_slot_holds_one_of_the_written_values() {
    let recorder: RapidRecorder<_, TestReadings> = RapidRecorder::new(10, 3).unwrap();
    let mut group = recorder.add_group(
        RapidRecorderGroup::new()
            .sample_rate(DefaultSamplingFrequency::EveryOne)
            .index_type(DefaultIndexDimmension::Step),
    );
    group.start_record(1);
    (0..1000u32).into_par_iter().for_each(|i| {
        let value = if i % 2 == 0 { 1.0e300f64 } else { -2.5e-300f64 };
        group.add(TestReadings::Reading1, value.to_bits());
    });
    group.finish();
    let event = recorder.convenient_pop().unwrap();
    let stored = event.get(TestReadings::Reading1).map(f64::from_bits).unwrap();
    assert!(stored == 1.0e300 || stored == -2.5e-300);
    assert_eq!(event.values.len(), 1);
}
