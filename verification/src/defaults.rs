//! Ready-made index dimensions and sampling frequencies.

use vstd::prelude::*;
use crate::named_usize::ValidRapidRecorderNamedUsize;

verus! {

/// The axes along which records are commonly numbered. The names stand for
/// `0` to `9`, in declaration order.
#[derive(Clone, Copy, Debug, Hash)]
pub enum DefaultIndexDimmension {
    Time,
    Step,
    Run,
    I,
    J,
    K,
    PositionX,
    PositionY,
    PositionZ,
    Frame,
}

impl PartialEq for DefaultIndexDimmension {
    fn eq(&self, other: &Self) -> (r: bool) {
        self.index() == other.index()
    }
}

impl Eq for DefaultIndexDimmension {

}

impl vstd::std_specs::cmp::PartialEqSpecImpl for DefaultIndexDimmension {
    open spec fn obeys_eq_spec() -> bool {
        true
    }

    open spec fn eq_spec(&self, other: &Self) -> bool {
        self.spec_index() == other.spec_index()
    }
}

impl ValidRapidRecorderNamedUsize for DefaultIndexDimmension {
    open spec fn spec_index(self) -> usize {
        match self {
            DefaultIndexDimmension::Time => 0,
            DefaultIndexDimmension::Step => 1,
            DefaultIndexDimmension::Run => 2,
            DefaultIndexDimmension::I => 3,
            DefaultIndexDimmension::J => 4,
            DefaultIndexDimmension::K => 5,
            DefaultIndexDimmension::PositionX => 6,
            DefaultIndexDimmension::PositionY => 7,
            DefaultIndexDimmension::PositionZ => 8,
            DefaultIndexDimmension::Frame => 9,
        }
    }

    open spec fn spec_from_index(i: usize) -> Option<Self> {
        if i == 0 {
            Some(DefaultIndexDimmension::Time)
        } else if i == 1 {
            Some(DefaultIndexDimmension::Step)
        } else if i == 2 {
            Some(DefaultIndexDimmension::Run)
        } else if i == 3 {
            Some(DefaultIndexDimmension::I)
        } else if i == 4 {
            Some(DefaultIndexDimmension::J)
        } else if i == 5 {
            Some(DefaultIndexDimmension::K)
        } else if i == 6 {
            Some(DefaultIndexDimmension::PositionX)
        } else if i == 7 {
            Some(DefaultIndexDimmension::PositionY)
        } else if i == 8 {
            Some(DefaultIndexDimmension::PositionZ)
        } else if i == 9 {
            Some(DefaultIndexDimmension::Frame)
        } else {
            None
        }
    }

    open spec fn spec_variants() -> Seq<Self> {
        seq![
            DefaultIndexDimmension::Time,
            DefaultIndexDimmension::Step,
            DefaultIndexDimmension::Run,
            DefaultIndexDimmension::I,
            DefaultIndexDimmension::J,
            DefaultIndexDimmension::K,
            DefaultIndexDimmension::PositionX,
            DefaultIndexDimmension::PositionY,
            DefaultIndexDimmension::PositionZ,
            DefaultIndexDimmension::Frame,
        ]
    }

    fn index(self) -> (i: usize) {
        match self {
            DefaultIndexDimmension::Time => 0,
            DefaultIndexDimmension::Step => 1,
            DefaultIndexDimmension::Run => 2,
            DefaultIndexDimmension::I => 3,
            DefaultIndexDimmension::J => 4,
            DefaultIndexDimmension::K => 5,
            DefaultIndexDimmension::PositionX => 6,
            DefaultIndexDimmension::PositionY => 7,
            DefaultIndexDimmension::PositionZ => 8,
            DefaultIndexDimmension::Frame => 9,
        }
    }

    fn from_index(i: usize) -> (t: Option<Self>) {
        match i {
            0 => Some(DefaultIndexDimmension::Time),
            1 => Some(DefaultIndexDimmension::Step),
            2 => Some(DefaultIndexDimmension::Run),
            3 => Some(DefaultIndexDimmension::I),
            4 => Some(DefaultIndexDimmension::J),
            5 => Some(DefaultIndexDimmension::K),
            6 => Some(DefaultIndexDimmension::PositionX),
            7 => Some(DefaultIndexDimmension::PositionY),
            8 => Some(DefaultIndexDimmension::PositionZ),
            9 => Some(DefaultIndexDimmension::Frame),
            _ => None,
        }
    }

    fn variants() -> (v: Vec<Self>) {
        let v = vec![
            DefaultIndexDimmension::Time,
            DefaultIndexDimmension::Step,
            DefaultIndexDimmension::Run,
            DefaultIndexDimmension::I,
            DefaultIndexDimmension::J,
            DefaultIndexDimmension::K,
            DefaultIndexDimmension::PositionX,
            DefaultIndexDimmension::PositionY,
            DefaultIndexDimmension::PositionZ,
            DefaultIndexDimmension::Frame,
        ];
        proof {
            let all = Self::spec_variants();
            assert(v@ =~= all);
            assert forall|t: Self| #[trigger] all.contains(t) by {
                assert(exists|i: int| 0 <= i < all.len() && all[i] == t);
            }
        }
        v
    }
}

/// How often a group keeps a record. A name stands for its denominator:
/// `EveryTen` for `10`, and so on.
#[derive(Clone, Copy, Debug, Hash)]
pub enum DefaultSamplingFrequency {
    EveryOne,
    EveryTen,
    EveryHundred,
    EveryThousand,
    EveryTenThousand,
    EveryHundredThousand,
    EveryMillion,
}

impl PartialEq for DefaultSamplingFrequency {
    fn eq(&self, other: &Self) -> (r: bool) {
        self.index() == other.index()
    }
}

impl Eq for DefaultSamplingFrequency {

}

impl vstd::std_specs::cmp::PartialEqSpecImpl for DefaultSamplingFrequency {
    open spec fn obeys_eq_spec() -> bool {
        true
    }

    open spec fn eq_spec(&self, other: &Self) -> bool {
        self.spec_index() == other.spec_index()
    }
}

impl ValidRapidRecorderNamedUsize for DefaultSamplingFrequency {
    open spec fn spec_index(self) -> usize {
        match self {
            DefaultSamplingFrequency::EveryOne => 1,
            DefaultSamplingFrequency::EveryTen => 10,
            DefaultSamplingFrequency::EveryHundred => 100,
            DefaultSamplingFrequency::EveryThousand => 1000,
            DefaultSamplingFrequency::EveryTenThousand => 10000,
            DefaultSamplingFrequency::EveryHundredThousand => 100000,
            DefaultSamplingFrequency::EveryMillion => 1000000,
        }
    }

    open spec fn spec_from_index(i: usize) -> Option<Self> {
        if i == 1 {
            Some(DefaultSamplingFrequency::EveryOne)
        } else if i == 10 {
            Some(DefaultSamplingFrequency::EveryTen)
        } else if i == 100 {
            Some(DefaultSamplingFrequency::EveryHundred)
        } else if i == 1000 {
            Some(DefaultSamplingFrequency::EveryThousand)
        } else if i == 10000 {
            Some(DefaultSamplingFrequency::EveryTenThousand)
        } else if i == 100000 {
            Some(DefaultSamplingFrequency::EveryHundredThousand)
        } else if i == 1000000 {
            Some(DefaultSamplingFrequency::EveryMillion)
        } else {
            None
        }
    }

    open spec fn spec_variants() -> Seq<Self> {
        seq![
            DefaultSamplingFrequency::EveryOne,
            DefaultSamplingFrequency::EveryTen,
            DefaultSamplingFrequency::EveryHundred,
            DefaultSamplingFrequency::EveryThousand,
            DefaultSamplingFrequency::EveryTenThousand,
            DefaultSamplingFrequency::EveryHundredThousand,
            DefaultSamplingFrequency::EveryMillion,
        ]
    }

    fn index(self) -> (i: usize) {
        match self {
            DefaultSamplingFrequency::EveryOne => 1,
            DefaultSamplingFrequency::EveryTen => 10,
            DefaultSamplingFrequency::EveryHundred => 100,
            DefaultSamplingFrequency::EveryThousand => 1000,
            DefaultSamplingFrequency::EveryTenThousand => 10000,
            DefaultSamplingFrequency::EveryHundredThousand => 100000,
            DefaultSamplingFrequency::EveryMillion => 1000000,
        }
    }

    fn from_index(i: usize) -> (t: Option<Self>) {
        match i {
            1 => Some(DefaultSamplingFrequency::EveryOne),
            10 => Some(DefaultSamplingFrequency::EveryTen),
            100 => Some(DefaultSamplingFrequency::EveryHundred),
            1000 => Some(DefaultSamplingFrequency::EveryThousand),
            10000 => Some(DefaultSamplingFrequency::EveryTenThousand),
            100000 => Some(DefaultSamplingFrequency::EveryHundredThousand),
            1000000 => Some(DefaultSamplingFrequency::EveryMillion),
            _ => None,
        }
    }

    fn variants() -> (v: Vec<Self>) {
        let v = vec![
            DefaultSamplingFrequency::EveryOne,
            DefaultSamplingFrequency::EveryTen,
            DefaultSamplingFrequency::EveryHundred,
            DefaultSamplingFrequency::EveryThousand,
            DefaultSamplingFrequency::EveryTenThousand,
            DefaultSamplingFrequency::EveryHundredThousand,
            DefaultSamplingFrequency::EveryMillion,
        ];
        proof {
            let all = Self::spec_variants();
            assert(v@ =~= all);
            assert forall|t: Self| #[trigger] all.contains(t) by {
                assert(exists|i: int| 0 <= i < all.len() && all[i] == t);
            }
        }
        v
    }
}

} // verus!
