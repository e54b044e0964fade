use rapid_recorder::defaults::DefaultIndexDimmension;
use rapid_recorder::defaults::DefaultSamplingFrequency;
use rapid_recorder::group::RapidRecorderGroup;
use rapid_recorder::named_usize::validate_enum_for_recorder;
use rapid_recorder::named_usize::NamedUsizeError;
use rapid_recorder::named_usize::ValidRapidRecorderNamedUsize;
use rapid_recorder::RapidRecorder;
use rapid_recorder::RecorderError;
use rapid_recorder::MAX_HISTORY_LENGTH;

#[derive(Clone, Copy, Debug, PartialEq, Eq, Hash)]
enum Dense {
    Variant0,
    Variant1,
    Variant2,
}

impl ValidRapidRecorderNamedUsize for Dense {
    fn index(self) -> usize {
        match self {
            Dense::Variant0 => 0,
            Dense::Variant1 => 1,
            Dense::Variant2 => 2,
        }
    }

    fn from_index(i: usize) -> Option<Self> {
        match i {
            0 => Some(Dense::Variant0),
            1 => Some(Dense::Variant1),
            2 => Some(Dense::Variant2),
            _ => None,
        }
    }

    fn variants() -> Vec<Self> {
        vec![Dense::Variant0, Dense::Variant1, Dense::Variant2]
    }
}

// Names that stand for 0, 5 and 6: a gap after the first.
#[derive(Clone, Copy, Debug, PartialEq, Eq, Hash)]
enum Gapped {
    A,
    B,
    C,
}

impl ValidRapidRecorderNamedUsize for Gapped {
    fn index(self) -> usize {
        match self {
            Gapped::A => 0,
            Gapped::B => 5,
            Gapped::C => 6,
        }
    }

    fn from_index(i: usize) -> Option<Self> {
        match i {
            0 => Some(Gapped::A),
            5 => Some(Gapped::B),
            6 => Some(Gapped::C),
            _ => None,
        }
    }

    fn variants() -> Vec<Self> {
        vec![Gapped::A, Gapped::B, Gapped::C]
    }
}

// Two names that both stand for 1: the second does not come back.
#[derive(Clone, Copy, Debug, PartialEq, Eq, Hash)]
enum Clashing {
    First,
    Second,
    Third,
}

impl ValidRapidRecorderNamedUsize for Clashing {
    fn index(self) -> usize {
        match self {
            Clashing::First => 0,
            Clashing::Second => 1,
            Clashing::Third => 1,
        }
    }

    fn from_index(i: usize) -> Option<Self> {
        match i {
            0 => Some(Clashing::First),
            1 => Some(Clashing::Second),
            _ => None,
        }
    }

    fn variants() -> Vec<Self> {
        vec![Clashing::First, Clashing::Second, Clashing::Third]
    }
}

// A name whose integer is out of range and stands for no name: both faults at once.
#[derive(Clone, Copy, Debug, PartialEq, Eq, Hash)]
enum Lost {
    Here,
    Gone,
}

impl ValidRapidRecorderNamedUsize for Lost {
    fn index(self) -> usize {
        match self {
            Lost::Here => 0,
            Lost::Gone => 9,
        }
    }

    fn from_index(i: usize) -> Option<Self> {
        match i {
            0 => Some(Lost::Here),
            _ => None,
        }
    }

    fn variants() -> Vec<Self> {
        vec![Lost::Here, Lost::Gone]
    }
}

#[test]
fn validate_accepts_dense_names_and_counts_them() {
    assert_eq!(validate_enum_for_recorder::<Dense>(), Ok(3));
    assert_eq!(validate_enum_for_recorder::<DefaultIndexDimmension>(), Ok(10));
}

#[test]
fn every_name_of_a_dense_type_round_trips_below_the_count() {
    let count = validate_enum_for_recorder::<DefaultIndexDimmension>().unwrap();
    for name in DefaultIndexDimmension::variants() {
        assert!(name.index() < count);
        assert_eq!(DefaultIndexDimmension::from_index(name.index()), Some(name));
    }
    for slot in 0..count {
        assert_eq!(DefaultIndexDimmension::from_index(slot).unwrap().index(), slot);
    }
    assert_eq!(DefaultIndexDimmension::from_index(count), None);
}

#[test]
fn validate_reports_the_first_integer_out_of_range() {
    assert_eq!(
        validate_enum_for_recorder::<Gapped>(),
        Err(NamedUsizeError::OutOfRange { index: 5, count: 3 })
    );
    assert_eq!(
        validate_enum_for_recorder::<DefaultSamplingFrequency>(),
        Err(NamedUsizeError::OutOfRange { index: 10, count: 7 })
    );
}

#[test]
fn validate_reports_a_name_that_does_not_come_back() {
    assert_eq!(
        validate_enum_for_recorder::<Clashing>(),
        Err(NamedUsizeError::RoundTrip { index: 1 })
    );
}

#[test]
fn validate_reports_the_round_trip_before_the_range() {
    assert_eq!(validate_enum_for_recorder::<Lost>(), Err(NamedUsizeError::RoundTrip { index: 9 }));
}

#[test]
fn sampling_frequencies_stand_for_their_denominators() {
    assert_eq!(DefaultSamplingFrequency::EveryOne.index(), 1);
    assert_eq!(DefaultSamplingFrequency::EveryTen.index(), 10);
    assert_eq!(DefaultSamplingFrequency::EveryHundred.index(), 100);
    assert_eq!(DefaultSamplingFrequency::EveryThousand.index(), 1000);
    assert_eq!(DefaultSamplingFrequency::EveryTenThousand.index(), 10000);
    assert_eq!(DefaultSamplingFrequency::EveryHundredThousand.index(), 100000);
    assert_eq!(DefaultSamplingFrequency::EveryMillion.index(), 1000000);
    assert_eq!(DefaultSamplingFrequency::variants().len(), 7);
    for rate in DefaultSamplingFrequency::variants() {
        assert_eq!(DefaultSamplingFrequency::from_index(rate.index()), Some(rate));
    }
    assert_eq!(DefaultSamplingFrequency::from_index(0), None);
    assert_eq!(DefaultSamplingFrequency::from_index(2), None);
}

#[test]
fn index_dimensions_are_numbered_in_declaration_order() {
    let all = DefaultIndexDimmension::variants();
    assert_eq!(all.len(), 10);
    assert_eq!(all[0], DefaultIndexDimmension::Time);
    assert_eq!(all[9], DefaultIndexDimmension::Frame);
    for (position, dimension) in all.iter().enumerate() {
        assert_eq!(dimension.index(), position);
    }
    assert!(DefaultIndexDimmension::Step == DefaultIndexDimmension::Step);
    assert!(DefaultIndexDimmension::Step != DefaultIndexDimmension::Run);
}

#[test]
fn a_recorder_is_built_for_the_right_count() {
    let made = RapidRecorder::<DefaultIndexDimmension, Dense>::new(100, 3);
    assert!(made.is_ok());
    let recorder = made.ok().unwrap();
    assert_eq!(recorder.max_reading_types(), 3);
    assert_eq!(recorder.raw_history().capacity(), 100);
}

#[test]
fn a_wrong_count_of_reading_types_is_refused() {
    let made = RapidRecorder::<DefaultIndexDimmension, Dense>::new(100, 5);
    assert_eq!(made.err(), Some(RecorderError::CountMismatch { declared: 5, actual: 3 }));
    let made = RapidRecorder::<DefaultIndexDimmension, Dense>::new(100, 2);
    assert_eq!(made.err(), Some(RecorderError::CountMismatch { declared: 2, actual: 3 }));
}

#[test]
fn reading_names_with_a_gap_are_refused_whatever_the_count() {
    let fault = NamedUsizeError::OutOfRange { index: 5, count: 3 };
    let made = RapidRecorder::<DefaultIndexDimmension, Gapped>::new(100, 3);
    assert_eq!(made.err(), Some(RecorderError::InvalidReadingNames(fault)));
    let made = RapidRecorder::<DefaultIndexDimmension, Gapped>::new(100, 7);
    assert_eq!(made.err(), Some(RecorderError::InvalidReadingNames(fault)));
}

#[test]
fn the_longest_history_is_a_fraction_of_the_address_space() {
    assert_eq!(MAX_HISTORY_LENGTH, usize::MAX / 256);
}

#[test]
fn a_new_group_has_nothing_set() {
    let group: RapidRecorderGroup = RapidRecorderGroup::new();
    assert!(group.sample_rate.is_none());
    assert!(group.sample_rate_value.is_none());
    assert!(group.index_type.is_none());
    assert!(group.index_type_value.is_none());
}

#[test]
fn group_setters_store_the_name_and_its_integer() {
    let group: RapidRecorderGroup =
        RapidRecorderGroup::new().sample_rate(DefaultSamplingFrequency::EveryHundred);
    assert_eq!(group.sample_rate, Some(DefaultSamplingFrequency::EveryHundred));
    assert_eq!(group.sample_rate_value, Some(100));
    assert!(group.index_type.is_none());
    assert!(group.index_type_value.is_none());

    let group = group.index_type(DefaultIndexDimmension::PositionY);
    assert_eq!(group.sample_rate, Some(DefaultSamplingFrequency::EveryHundred));
    assert_eq!(group.sample_rate_value, Some(100));
    assert_eq!(group.index_type, Some(DefaultIndexDimmension::PositionY));
    assert_eq!(group.index_type_value, Some(7));

    let group = group.sample_rate(DefaultSamplingFrequency::EveryTen);
    assert_eq!(group.sample_rate_value, Some(10));
    assert_eq!(group.index_type_value, Some(7));
}
