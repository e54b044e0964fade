//! The names most callers need.

pub use crate::defaults::DefaultIndexDimmension;
pub use crate::defaults::DefaultSamplingFrequency;
pub use crate::group::RapidRecorderGroup;
pub use crate::named_usize::ValidRapidRecorderNamedUsize;
pub use crate::RapidRecorder;
