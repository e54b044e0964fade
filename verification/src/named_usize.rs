//! Names with an integer identity, and the check that the identity is dense.

use vstd::prelude::*;
use vstd::std_specs::cmp::PartialEqSpec;

verus! {

/// A closed set of names, each standing for an integer.
///
/// The recorder stores readings in arrays, so it needs to go from a name to a
/// slot number and back. An implementation describes the two directions and
/// lists its names; it does not have to be dense. Whether it is dense is what
/// [`validate_enum_for_recorder`] finds out.
pub trait ValidRapidRecorderNamedUsize: Copy + PartialEq {
    /// The integer that a name stands for. Unspecified unless the
    /// implementation states it.
    open spec fn spec_index(self) -> usize {
        arbitrary()
    }

    /// The name that an integer stands for, if it stands for one. Unspecified
    /// unless the implementation states it.
    open spec fn spec_from_index(i: usize) -> Option<Self> {
        arbitrary()
    }

    /// All names of the type, in declaration order. Unspecified unless the
    /// implementation states it.
    open spec fn spec_variants() -> Seq<Self> {
        arbitrary()
    }

    /// The integer that this name stands for.
    fn index(self) -> (i: usize)
        ensures
            i == self.spec_index(),
    ;

    /// The name that `i` stands for, or `None` where it stands for none.
    fn from_index(i: usize) -> (t: Option<Self>)
        ensures
            t == Self::spec_from_index(i),
    ;

    /// All names of the type, in declaration order: every name, none twice.
    /// On names, `==` is identity.
    fn variants() -> (v: Vec<Self>)
        ensures
            v@ == Self::spec_variants(),
            v@.no_duplicates(),
            forall|t: Self| #[trigger] v@.contains(t),
            Self::obeys_eq_spec(),
            forall|a: Self, b: Self| #[trigger] a.eq_spec(&b) <==> a == b,
    ;
}

/// The list of names of `T` holds every name, and none twice.
pub open spec fn names_enumerated<T: ValidRapidRecorderNamedUsize>() -> bool {
    &&& T::spec_variants().no_duplicates()
    &&& forall|t: T| #[trigger] T::spec_variants().contains(t)
}

/// On `T`, `==` tells whether two names are the same name.
pub open spec fn equality_is_identity<T: ValidRapidRecorderNamedUsize>() -> bool {
    &&& T::obeys_eq_spec()
    &&& forall|a: T, b: T| #[trigger] a.eq_spec(&b) <==> a == b
}

/// Why a type's integer identity cannot drive array slots.
#[derive(Clone, Copy, Debug, PartialEq, Eq, Structural)]
pub enum NamedUsizeError {
    /// The name whose integer is `index` does not come back from that integer.
    RoundTrip { index: usize },
    /// A name stands for `index`, which is not below the number of names, `count`.
    OutOfRange { index: usize, count: usize },
}

/// The number of names of `T`.
pub open spec fn variant_count<T: ValidRapidRecorderNamedUsize>() -> nat {
    T::spec_variants().len()
}

/// Going from `t` to its integer and back gives `t` again.
pub open spec fn round_trips<T: ValidRapidRecorderNamedUsize>(t: T) -> bool {
    T::spec_from_index(t.spec_index()) == Some(t)
}

/// What is wrong with `t` as a slot name, if anything: a failing round trip
/// is reported before an integer out of range.
pub open spec fn fault_of<T: ValidRapidRecorderNamedUsize>(t: T) -> Option<NamedUsizeError> {
    if !round_trips(t) {
        Some(NamedUsizeError::RoundTrip { index: t.spec_index() })
    } else if t.spec_index() >= variant_count::<T>() {
        Some(
            NamedUsizeError::OutOfRange {
                index: t.spec_index(),
                count: variant_count::<T>() as usize,
            },
        )
    } else {
        None
    }
}

/// Every name of `T` round-trips and stands for an integer below the number
/// of names.
pub open spec fn is_dense<T: ValidRapidRecorderNamedUsize>() -> bool {
    forall|t: T| #[trigger] fault_of(t) is None
}

/// Position `k` of the list of names holds the first name with a fault.
pub open spec fn first_fault_at<T: ValidRapidRecorderNamedUsize>(k: int) -> bool {
    &&& 0 <= k < T::spec_variants().len()
    &&& fault_of(T::spec_variants()[k]) is Some
    &&& forall|j: int| 0 <= j < k ==> fault_of(#[trigger] T::spec_variants()[j]) is None
}

/// Checks that `T` can name the slots of a recorder and returns its number of
/// names.
///
/// The names are taken in declaration order. The first one with a fault
/// decides the error. Whatever the answer, the names have been listed, which
/// shows that the list holds each of them once.
pub fn validate_enum_for_recorder<T: ValidRapidRecorderNamedUsize>() -> (r: Result<
    usize,
    NamedUsizeError,
>)
    ensures
        names_enumerated::<T>(),
        r is Ok <==> is_dense::<T>(),
        r matches Ok(n) ==> n == variant_count::<T>(),
        r matches Err(e) ==> exists|k: int|
            #![trigger T::spec_variants()[k]]
            first_fault_at::<T>(k) && fault_of(T::spec_variants()[k]) == Some(e),
{
    let all = T::variants();
    let variant_count = all.len();
    let mut k: usize = 0;
    while k < variant_count
        invariant
            all@ == T::spec_variants(),
            names_enumerated::<T>(),
            equality_is_identity::<T>(),
            variant_count == all.len(),
            k <= variant_count,
            forall|j: int| 0 <= j < k ==> fault_of(#[trigger] all@[j]) is None,
        decreases variant_count - k,
    {
        let variant = all[k];
        let as_usize = variant.index();
        let came_back = match T::from_index(as_usize) {
            Some(back) => back == variant,
            None => false,
        };
        if !came_back {
            proof {
                assert(first_fault_at::<T>(k as int));
                assert(!is_dense::<T>()) by {
                    assert(fault_of(all@[k as int]) is Some);
                }
            }
            return Err(NamedUsizeError::RoundTrip { index: as_usize });
        }
        if as_usize >= variant_count {
            proof {
                assert(first_fault_at::<T>(k as int));
                assert(!is_dense::<T>()) by {
                    assert(fault_of(all@[k as int]) is Some);
                }
            }
            return Err(NamedUsizeError::OutOfRange { index: as_usize, count: variant_count });
        }
        k += 1;
    }
    proof {
        assert forall|t: T| #[trigger] fault_of(t) is None by {
            assert(all@.contains(t));
            let j = choose|j: int| 0 <= j < all@.len() && all@[j] == t;
            assert(fault_of(all@[j]) is None);
        }
    }
    Ok(variant_count)
}

/// For a dense type, every name comes back from its integer, and its integer
/// is below the number of names.
pub proof fn lemma_dense_round_trip<T: ValidRapidRecorderNamedUsize>(t: T)
    requires
        is_dense::<T>(),
    ensures
        T::spec_from_index(t.spec_index()) == Some(t),
        t.spec_index() < variant_count::<T>(),
{
    assert(fault_of(t) is None);
}

/// For a dense type, every integer below the number of names stands for a
/// name, and that name stands for the integer: the names number the slots
/// `0` to `N - 1` without a gap.
pub proof fn lemma_dense_slots_are_names<T: ValidRapidRecorderNamedUsize>(i: usize)
    requires
        is_dense::<T>(),
        names_enumerated::<T>(),
        i < variant_count::<T>(),
    ensures
        T::spec_from_index(i) is Some,
        T::spec_from_index(i).unwrap().spec_index() == i,
{
    let all = T::spec_variants();
    let count = all.len() as int;
    let integers = all.map_values(|t: T| t.spec_index() as int);
    assert forall|a: int, b: int|
        0 <= a < integers.len() && 0 <= b < integers.len() && a != b implies integers[a]
        != integers[b] by {
        lemma_dense_round_trip(all[a]);
        lemma_dense_round_trip(all[b]);
    }
    integers.unique_seq_to_set();
    vstd::seq_lib::seq_to_set_is_finite(integers);
    vstd::set_lib::lemma_int_range(0, count);
    let slots = vstd::set_lib::set_int_range(0, count);
    assert(integers.to_set().subset_of(slots)) by {
        assert forall|x: int| integers.to_set().contains(x) implies slots.contains(x) by {
            let a = choose|a: int| 0 <= a < integers.len() && integers[a] == x;
            lemma_dense_round_trip(all[a]);
        }
    }
    vstd::set_lib::lemma_subset_equality(integers.to_set(), slots);
    assert(slots.contains(i as int));
    assert(integers.to_set().contains(i as int));
    let a = choose|a: int| 0 <= a < integers.len() && integers[a] == i as int;
    lemma_dense_round_trip(all[a]);
}

} // verus!
