//! What a group of records is configured with.

use vstd::prelude::*;
use crate::defaults::DefaultIndexDimmension;
use crate::defaults::DefaultSamplingFrequency;
use crate::named_usize::ValidRapidRecorderNamedUsize;

verus! {

/// A sampling frequency and an index dimension, each set on its own.
///
/// Both start unset. A setter stores the name and, beside it, the integer the
/// name stands for.
pub struct RapidRecorderGroup<
    SampleRate: ValidRapidRecorderNamedUsize = DefaultSamplingFrequency,
    IndexDimmension: ValidRapidRecorderNamedUsize = DefaultIndexDimmension,
> {
    pub sample_rate: Option<SampleRate>,
    pub sample_rate_value: Option<usize>,
    pub index_type: Option<IndexDimmension>,
    pub index_type_value: Option<usize>,
}

impl<
    SamplingFrequency: ValidRapidRecorderNamedUsize,
    IndexDimmension: ValidRapidRecorderNamedUsize,
> RapidRecorderGroup<SamplingFrequency, IndexDimmension> {
    /// Both fields are set, which is what a recorder asks of a group.
    pub open spec fn is_complete(self) -> bool {
        self.sample_rate_value is Some && self.index_type_value is Some
    }

    /// A group with nothing set.
    pub fn new() -> (group: Self)
        ensures
            group.sample_rate is None,
            group.sample_rate_value is None,
            group.index_type is None,
            group.index_type_value is None,
    {
        Self { sample_rate: None, sample_rate_value: None, index_type: None, index_type_value: None }
    }

    /// The same group with the sampling frequency set to `rate`.
    pub fn sample_rate(self, rate: SamplingFrequency) -> (group: RapidRecorderGroup<
        SamplingFrequency,
        IndexDimmension,
    >)
        ensures
            group.sample_rate == Some(rate),
            group.sample_rate_value == Some(rate.spec_index()),
            group.index_type == self.index_type,
            group.index_type_value == self.index_type_value,
    {
        RapidRecorderGroup {
            sample_rate: Some(rate),
            sample_rate_value: Some(rate.index()),
            index_type: self.index_type,
            index_type_value: self.index_type_value,
        }
    }

    /// The same group with the index dimension set to `index_type`.
    pub fn index_type(self, index_type: IndexDimmension) -> (group: RapidRecorderGroup<
        SamplingFrequency,
        IndexDimmension,
    >)
        ensures
            group.sample_rate == self.sample_rate,
            group.sample_rate_value == self.sample_rate_value,
            group.index_type == Some(index_type),
            group.index_type_value == Some(index_type.spec_index()),
    {
        RapidRecorderGroup {
            sample_rate: self.sample_rate,
            sample_rate_value: self.sample_rate_value,
            index_type: Some(index_type),
            index_type_value: Some(index_type.index()),
        }
    }
}

} // verus!
