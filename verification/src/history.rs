//! Grouping, de-duplicating and ordering the events taken out of a recorder.

use vstd::prelude::*;
use vstd::relations::sorted_by;
use vstd::relations::total_ordering;
use vstd::seq_lib::lemma_multiset_commutative;
use vstd::seq_lib::lemma_sorted_unique;
use std::collections::HashMap;
use std::collections::HashSet;
use crate::event::RREvent;
use crate::event::RREventView;
use crate::event::RawRREvent;
use crate::named_usize::ValidRapidRecorderNamedUsize;
use crate::RRDuplicateEventIdHandling;

verus! {

broadcast use vstd::std_specs::hash::group_hash_axioms;

/// An event of a group, as the pair of its id and its position among the
/// events taken out. Positions grow in the order the events were pushed.
pub type IdAt = (usize, usize);

/// The order of a group: by id, and among equal ids by position.
pub open spec fn id_then_position(a: IdAt, b: IdAt) -> bool {
    a.0 < b.0 || (a.0 == b.0 && a.1 <= b.1)
}

/// [`id_then_position`] as a relation.
pub open spec fn group_order() -> spec_fn(IdAt, IdAt) -> bool {
    |a: IdAt, b: IdAt| id_then_position(a, b)
}

/// No event of `pairs` with the id of `p` was pushed before `p`.
pub open spec fn first_of_id(pairs: Seq<IdAt>, p: IdAt) -> bool {
    forall|j: int| 0 <= j < pairs.len() && pairs[j].0 == p.0 ==> p.1 <= (#[trigger] pairs[j]).1
}

/// No event of `pairs` with the id of `p` was pushed after `p`.
pub open spec fn last_of_id(pairs: Seq<IdAt>, p: IdAt) -> bool {
    forall|j: int| 0 <= j < pairs.len() && pairs[j].0 == p.0 ==> (#[trigger] pairs[j]).1 <= p.1
}

/// The events of `pairs` that stay under `handling`, in the order they were
/// pushed.
pub open spec fn kept_pairs(pairs: Seq<IdAt>, handling: RRDuplicateEventIdHandling) -> Seq<IdAt> {
    match handling {
        RRDuplicateEventIdHandling::KeepOnlyFirst => pairs.filter(|p: IdAt| first_of_id(pairs, p)),
        RRDuplicateEventIdHandling::KeepOnlyLast => pairs.filter(|p: IdAt| last_of_id(pairs, p)),
        RRDuplicateEventIdHandling::KeepBoth => pairs,
    }
}

/// The events of `pairs` that stay under `handling`, ordered by id and, among
/// equal ids, by the order they were pushed.
pub open spec fn ordered_pairs(pairs: Seq<IdAt>, handling: RRDuplicateEventIdHandling) -> Seq<
    IdAt,
> {
    kept_pairs(pairs, handling).sort_by(group_order())
}

/// An event with the id `id` is among `pairs`.
pub open spec fn has_id(pairs: Seq<IdAt>, id: usize) -> bool {
    exists|a: int| 0 <= a < pairs.len() && (#[trigger] pairs[a]).0 == id
}

/// Positions grow along `pairs`.
pub open spec fn positions_grow(pairs: Seq<IdAt>) -> bool {
    forall|i: int, j: int| 0 <= i < j < pairs.len() ==> (#[trigger] pairs[i]).1 < (#[trigger] pairs[j]).1
}

/// [`id_then_position`] is a total order.
pub proof fn lemma_group_order_is_total()
    ensures
        total_ordering(group_order()),
{
    let leq = group_order();
    assert forall|a: IdAt, b: IdAt| #[trigger] leq(a, b) && leq(b, a) implies a == b by {}
    assert(vstd::relations::reflexive(leq));
    assert(vstd::relations::antisymmetric(leq));
    assert(vstd::relations::transitive(leq));
    assert(vstd::relations::strongly_connected(leq));
}

/// `sort` of std, on a vector of pairs of integers: afterwards the vector holds
/// the same pairs as before, each as often as before, in ascending order, where
/// pairs are ordered by their first parts and, where these are equal, by their
/// second parts.
#[verifier::external_body]
fn sort_pairs(pairs: &mut Vec<IdAt>)
    ensures
        final(pairs)@.to_multiset() == old(pairs)@.to_multiset(),
        sorted_by(final(pairs)@, group_order()),
{
    pairs.sort();
}

/// The ids of the events of `pairs`.
pub open spec fn ids_of(pairs: Seq<IdAt>) -> Set<usize> {
    Set::new(|id: usize| exists|j: int| 0 <= j < pairs.len() && (#[trigger] pairs[j]).0 == id)
}

/// Keeps, of the events with one id, the one pushed first.
fn keep_first(pairs: &Vec<IdAt>) -> (kept: Vec<IdAt>)
    requires
        positions_grow(pairs@),
    ensures
        kept@ == kept_pairs(pairs@, RRDuplicateEventIdHandling::KeepOnlyFirst),
{
    let ghost first = |p: IdAt| first_of_id(pairs@, p);
    let mut seen: HashSet<usize> = HashSet::new();
    let mut kept: Vec<IdAt> = Vec::new();
    let mut i: usize = 0;
    proof {
        reveal(Seq::filter);
        assert(pairs@.take(0).filter(first) =~= Seq::<IdAt>::empty());
        assert(seen@ =~= ids_of(pairs@.take(0)));
    }
    while i < pairs.len()
        invariant
            i <= pairs.len(),
            positions_grow(pairs@),
            first == (|p: IdAt| first_of_id(pairs@, p)),
            seen@ == ids_of(pairs@.take(i as int)),
            kept@ == pairs@.take(i as int).filter(first),
        decreases pairs.len() - i,
    {
        let p = pairs[i];
        let is_new = seen.insert(p.0);
        proof {
            let before = pairs@.take(i as int);
            let after = pairs@.take(i + 1);
            assert(after =~= before.push(p));
            before.lemma_filter_push(p, first);
            assert(seen@ =~= ids_of(after)) by {
                assert forall|id: usize| ids_of(after).contains(id) implies ids_of(before).insert(
                    p.0,
                ).contains(id) by {
                    let j = choose|j: int| 0 <= j < after.len() && (#[trigger] after[j]).0 == id;
                    if j < i {
                        assert(before[j].0 == id);
                    }
                }
                assert forall|id: usize| ids_of(before).insert(p.0).contains(id) implies ids_of(
                    after,
                ).contains(id) by {
                    if id == p.0 {
                        assert(after[i as int].0 == id);
                    } else {
                        let j = choose|j: int|
                            0 <= j < before.len() && (#[trigger] before[j]).0 == id;
                        assert(after[j].0 == id);
                    }
                }
            }
            if is_new {
                assert forall|j: int| 0 <= j < pairs@.len() && pairs@[j].0 == p.0 implies p.1 <= (
                #[trigger] pairs@[j]).1 by {
                    if j < i {
                        assert(before[j].0 == p.0);
                    }
                }
            } else {
                let j = choose|j: int| 0 <= j < before.len() && (#[trigger] before[j]).0 == p.0;
                assert(pairs@[j].0 == p.0 && pairs@[j].1 < pairs@[i as int].1);
            }
            assert(is_new == first(p));
        }
        if is_new {
            kept.push(p);
        }
        i += 1;
    }
    proof {
        assert(pairs@.take(i as int) =~= pairs@);
    }
    kept
}

/// Keeps, of the events with one id, the one pushed last. The events come out
/// in the reverse of the order they were pushed.
fn keep_last(pairs: &Vec<IdAt>) -> (kept: Vec<IdAt>)
    requires
        positions_grow(pairs@),
    ensures
        kept@.to_multiset() == kept_pairs(
            pairs@,
            RRDuplicateEventIdHandling::KeepOnlyLast,
        ).to_multiset(),
{
    let ghost last = |p: IdAt| last_of_id(pairs@, p);
    let mut seen: HashSet<usize> = HashSet::new();
    let mut kept: Vec<IdAt> = Vec::new();
    let mut i: usize = pairs.len();
    proof {
        reveal(Seq::filter);
        assert(pairs@.skip(i as int).filter(last) =~= Seq::<IdAt>::empty());
        assert(seen@ =~= ids_of(pairs@.skip(i as int)));
    }
    while i > 0
        invariant
            i <= pairs.len(),
            positions_grow(pairs@),
            last == (|p: IdAt| last_of_id(pairs@, p)),
            seen@ == ids_of(pairs@.skip(i as int)),
            kept@.to_multiset() == pairs@.skip(i as int).filter(last).to_multiset(),
        decreases i,
    {
        i -= 1;
        let p = pairs[i];
        let is_new = seen.insert(p.0);
        proof {
            let before = pairs@.skip(i + 1);
            let after = pairs@.skip(i as int);
            let head = seq![p];
            assert(after =~= head + before);
            assert(seen@ =~= ids_of(after)) by {
                assert forall|id: usize| ids_of(after).contains(id) implies ids_of(before).insert(
                    p.0,
                ).contains(id) by {
                    let j = choose|j: int| 0 <= j < after.len() && (#[trigger] after[j]).0 == id;
                    if j > 0 {
                        assert(before[j - 1].0 == id);
                    }
                }
                assert forall|id: usize| ids_of(before).insert(p.0).contains(id) implies ids_of(
                    after,
                ).contains(id) by {
                    if id == p.0 {
                        assert(after[0].0 == id);
                    } else {
                        let j = choose|j: int|
                            0 <= j < before.len() && (#[trigger] before[j]).0 == id;
                        assert(after[j + 1].0 == id);
                    }
                }
            }
            if is_new {
                assert forall|j: int| 0 <= j < pairs@.len() && pairs@[j].0 == p.0 implies (
                #[trigger] pairs@[j]).1 <= p.1 by {
                    if j > i {
                        assert(before[j - i - 1].0 == p.0);
                    }
                }
            } else {
                let j = choose|j: int| 0 <= j < before.len() && (#[trigger] before[j]).0 == p.0;
                assert(pairs@[i + 1 + j].0 == p.0 && pairs@[i as int].1 < pairs@[i + 1 + j].1);
            }
            assert(is_new == last(p));
            Seq::filter_distributes_over_add(head, before, last);
            Seq::<IdAt>::empty().lemma_filter_push(p, last);
            assert(Seq::<IdAt>::empty().push(p) =~= head);
            assert(Seq::<IdAt>::empty().filter(last) =~= Seq::<IdAt>::empty());
            lemma_multiset_commutative(head.filter(last), before.filter(last));
            vstd::seq_lib::to_multiset_build(kept@, p);
            vstd::seq_lib::to_multiset_build(Seq::<IdAt>::empty(), p);
            assert(Seq::<IdAt>::empty().to_multiset() =~= vstd::multiset::Multiset::empty()) by {
                broadcast use vstd::seq_lib::group_to_multiset_ensures;

            }
            if is_new {
                assert(kept@.push(p).to_multiset() =~= after.filter(last).to_multiset());
            } else {
                assert(kept@.to_multiset() =~= after.filter(last).to_multiset());
            }
        }
        if is_new {
            kept.push(p);
        }
    }
    proof {
        assert(pairs@.skip(0) =~= pairs@);
    }
    kept
}

/// Keeps the events of a group that stay under `handling`. The order they
/// come out in is not fixed.
fn keep_pairs(pairs: Vec<IdAt>, handling: RRDuplicateEventIdHandling) -> (kept: Vec<IdAt>)
    requires
        positions_grow(pairs@),
    ensures
        kept@.to_multiset() == kept_pairs(pairs@, handling).to_multiset(),
{
    match handling {
        RRDuplicateEventIdHandling::KeepOnlyFirst => keep_first(&pairs),
        RRDuplicateEventIdHandling::KeepOnlyLast => keep_last(&pairs),
        RRDuplicateEventIdHandling::KeepBoth => pairs,
    }
}

/// Brings the events of a group into the order they are handed out in.
fn order_pairs(pairs: Vec<IdAt>, handling: RRDuplicateEventIdHandling) -> (ordered: Vec<IdAt>)
    requires
        positions_grow(pairs@),
    ensures
        ordered@ == ordered_pairs(pairs@, handling),
{
    let ghost given = pairs@;
    let mut kept = keep_pairs(pairs, handling);
    sort_pairs(&mut kept);
    proof {
        let wanted = kept_pairs(given, handling);
        lemma_group_order_is_total();
        wanted.lemma_sort_by_ensures(group_order());
        lemma_sorted_unique(kept@, wanted.sort_by(group_order()), group_order());
    }
    kept
}

/// Adds what a history answered, when asked for its oldest event, to the
/// events taken out so far. An event joins them at the end and more may
/// follow; an empty answer leaves them as they are and ends the taking.
pub fn keep_popped(events: &mut Vec<RawRREvent>, popped: Option<RawRREvent>) -> (more: bool)
    ensures
        more == popped is Some,
        final(events)@ == match popped {
            Some(raw) => old(events)@.push(raw),
            None => old(events)@,
        },
{
    match popped {
        Some(raw) => {
            events.push(raw);
            true
        },
        None => false,
    }
}

/// The pair that stands for the event at position `i`.
pub open spec fn pair_at(events: Seq<RawRREvent>, i: int) -> IdAt {
    (events[i].record_id, i as usize)
}

/// Whether the event a pair stands for belongs to the group `key`: it can be
/// read with the two types, and its index dimension stands for `key`.
pub open spec fn in_group<
    ReadingName: ValidRapidRecorderNamedUsize,
    IndexDimmension: ValidRapidRecorderNamedUsize,
>(events: Seq<RawRREvent>, key: usize) -> spec_fn(IdAt) -> bool {
    |p: IdAt|
        events[p.1 as int].fits::<ReadingName, IndexDimmension>() && events[p.1 as int].id_type
            == key
}

/// The events of group `key` among the first `n`, in the order they were
/// pushed.
pub open spec fn group_pairs_below<
    ReadingName: ValidRapidRecorderNamedUsize,
    IndexDimmension: ValidRapidRecorderNamedUsize,
>(events: Seq<RawRREvent>, key: usize, n: int) -> Seq<IdAt> {
    Seq::new(n as nat, |i: int| pair_at(events, i)).filter(
        in_group::<ReadingName, IndexDimmension>(events, key),
    )
}

/// The events of group `key`, in the order they were pushed.
pub open spec fn group_pairs<
    ReadingName: ValidRapidRecorderNamedUsize,
    IndexDimmension: ValidRapidRecorderNamedUsize,
>(events: Seq<RawRREvent>, key: usize) -> Seq<IdAt> {
    group_pairs_below::<ReadingName, IndexDimmension>(events, key, events.len() as int)
}

/// What retrieval hands out for group `key`: the events that stay under
/// `handling`, by names, ordered by id and, among equal ids, by the order they
/// were pushed.
pub open spec fn group_of<
    ReadingName: ValidRapidRecorderNamedUsize,
    IndexDimmension: ValidRapidRecorderNamedUsize,
>(events: Seq<RawRREvent>, key: usize, handling: RRDuplicateEventIdHandling) -> Seq<
    RREventView<ReadingName, IndexDimmension>,
> {
    ordered_pairs(group_pairs::<ReadingName, IndexDimmension>(events, key), handling).map_values(
        |p: IdAt| events[p.1 as int].structured::<ReadingName, IndexDimmension>(),
    )
}

/// A vector of events as plain values.
pub open spec fn views_of<
    ReadingName: ValidRapidRecorderNamedUsize,
    IndexDimmension: ValidRapidRecorderNamedUsize,
>(group: Seq<RREvent<ReadingName, IndexDimmension>>) -> Seq<
    RREventView<ReadingName, IndexDimmension>,
> {
    group.map_values(|e: RREvent<ReadingName, IndexDimmension>| e@)
}

/// Each pair of a group stands for an event of the group, and positions grow
/// along the group.
pub proof fn lemma_group_pairs_below<
    ReadingName: ValidRapidRecorderNamedUsize,
    IndexDimmension: ValidRapidRecorderNamedUsize,
>(events: Seq<RawRREvent>, key: usize, n: int)
    requires
        0 <= n <= events.len() <= usize::MAX,
    ensures
        positions_grow(group_pairs_below::<ReadingName, IndexDimmension>(events, key, n)),
        forall|j: int|
            #![trigger group_pairs_below::<ReadingName, IndexDimmension>(events, key, n)[j]]
            0 <= j < group_pairs_below::<ReadingName, IndexDimmension>(events, key, n).len() ==> {
                let p = group_pairs_below::<ReadingName, IndexDimmension>(events, key, n)[j];
                &&& p.1 < n
                &&& p == pair_at(events, p.1 as int)
                &&& events[p.1 as int].fits::<ReadingName, IndexDimmension>()
                &&& events[p.1 as int].id_type == key
            },
    decreases n,
{
    let all = Seq::new(n as nat, |i: int| pair_at(events, i));
    let belongs = in_group::<ReadingName, IndexDimmension>(events, key);
    if n == 0 {
        reveal(Seq::filter);
        assert(all.filter(belongs) =~= Seq::<IdAt>::empty());
    } else {
        lemma_group_pairs_below::<ReadingName, IndexDimmension>(events, key, n - 1);
        let before = Seq::new((n - 1) as nat, |i: int| pair_at(events, i));
        assert(all =~= before.push(pair_at(events, n - 1)));
        before.lemma_filter_push(pair_at(events, n - 1), belongs);
    }
}

/// Reads the events that `ordered` stands for, in that order.
fn read_group<
    ReadingName: ValidRapidRecorderNamedUsize,
    IndexDimmension: ValidRapidRecorderNamedUsize,
>(events: &Vec<RawRREvent>, ordered: &Vec<IdAt>) -> (group: Vec<
    RREvent<ReadingName, IndexDimmension>,
>)
    requires
        forall|j: int|
            0 <= j < ordered.len() ==> (#[trigger] ordered[j]).1 < events.len()
                && events[ordered[j].1 as int].fits::<ReadingName, IndexDimmension>(),
    ensures
        views_of(group@) == ordered@.map_values(
            |p: IdAt| events@[p.1 as int].structured::<ReadingName, IndexDimmension>(),
        ),
{
    let mut group: Vec<RREvent<ReadingName, IndexDimmension>> = Vec::new();
    let mut j: usize = 0;
    while j < ordered.len()
        invariant
            j <= ordered.len(),
            forall|j: int|
                0 <= j < ordered.len() ==> (#[trigger] ordered[j]).1 < events.len()
                    && events[ordered[j].1 as int].fits::<ReadingName, IndexDimmension>(),
            views_of(group@) =~= ordered@.take(j as int).map_values(
                |p: IdAt| events@[p.1 as int].structured::<ReadingName, IndexDimmension>(),
            ),
        decreases ordered.len() - j,
    {
        let p = ordered[j];
        let ghost read_so_far = group@;
        if let Some(event) = events[p.1].to_rr_event::<ReadingName, IndexDimmension>() {
            group.push(event);
            proof {
                let by_names = |p: IdAt|
                    events@[p.1 as int].structured::<ReadingName, IndexDimmension>();
                assert(ordered@.take(j + 1) =~= ordered@.take(j as int).push(p));
                assert(ordered@.take(j as int).push(p).map_values(by_names) =~= ordered@.take(
                    j as int,
                ).map_values(by_names).push(by_names(p)));
                assert(views_of(read_so_far.push(event)) =~= views_of(read_so_far).push(event@));
            }
        }
        j += 1;
    }
    proof {
        assert(ordered@.take(j as int) =~= ordered@);
    }
    group
}

/// What one more event does to a group: it joins the group whose key is its
/// own, where it can be read, and no other.
proof fn lemma_group_pairs_step<
    ReadingName: ValidRapidRecorderNamedUsize,
    IndexDimmension: ValidRapidRecorderNamedUsize,
>(events: Seq<RawRREvent>, key: usize, n: int)
    requires
        0 <= n < events.len() <= usize::MAX,
    ensures
        group_pairs_below::<ReadingName, IndexDimmension>(events, key, n + 1) == if events[n].fits::<
            ReadingName,
            IndexDimmension,
        >() && events[n].id_type == key {
            group_pairs_below::<ReadingName, IndexDimmension>(events, key, n).push(
                pair_at(events, n),
            )
        } else {
            group_pairs_below::<ReadingName, IndexDimmension>(events, key, n)
        },
{
    let before = Seq::new(n as nat, |i: int| pair_at(events, i));
    let after = Seq::new((n + 1) as nat, |i: int| pair_at(events, i));
    assert(after =~= before.push(pair_at(events, n)));
    before.lemma_filter_push(
        pair_at(events, n),
        in_group::<ReadingName, IndexDimmension>(events, key),
    );
}

/// Sorts the events that can be read into their groups, each group in the
/// order it was pushed, and lists the keys of the groups.
fn collect_groups<
    ReadingName: ValidRapidRecorderNamedUsize,
    IndexDimmension: ValidRapidRecorderNamedUsize,
>(events: &Vec<RawRREvent>) -> (found: (Vec<usize>, HashMap<usize, Vec<IdAt>>))
    ensures
        found.0@.no_duplicates(),
        forall|key: usize| found.0@.contains(key) <==> found.1@.contains_key(key),
        forall|key: usize|
            found.1@.contains_key(key) <==> (#[trigger] group_pairs::<
                ReadingName,
                IndexDimmension,
            >(events@, key)).len() > 0,
        forall|key: usize|
            found.1@.contains_key(key) ==> (#[trigger] found.1@[key])@ == group_pairs::<
                ReadingName,
                IndexDimmension,
            >(events@, key),
{
    let mut keys: Vec<usize> = Vec::new();
    let mut groups: HashMap<usize, Vec<IdAt>> = HashMap::new();
    let mut i: usize = 0;
    proof {
        assert forall|key: usize|
            (#[trigger] group_pairs_below::<ReadingName, IndexDimmension>(events@, key, 0)).len()
                == 0 by {
            reveal(Seq::filter);
        }
    }
    while i < events.len()
        invariant
            i <= events.len(),
            keys@.no_duplicates(),
            forall|key: usize| keys@.contains(key) <==> groups@.contains_key(key),
            forall|key: usize|
                groups@.contains_key(key) <==> (#[trigger] group_pairs_below::<
                    ReadingName,
                    IndexDimmension,
                >(events@, key, i as int)).len() > 0,
            forall|key: usize|
                groups@.contains_key(key) ==> (#[trigger] groups@[key])@ == group_pairs_below::<
                    ReadingName,
                    IndexDimmension,
                >(events@, key, i as int),
        decreases events.len() - i,
    {
        let ghost groups_before = groups@;
        let ghost keys_before = keys@;
        proof {
            assert forall|key: usize|
                #![trigger group_pairs_below::<ReadingName, IndexDimmension>(events@, key, i + 1)]
                group_pairs_below::<ReadingName, IndexDimmension>(events@, key, i + 1) == if events@[i as int].fits::<
                    ReadingName,
                    IndexDimmension,
                >() && events@[i as int].id_type == key {
                    group_pairs_below::<ReadingName, IndexDimmension>(events@, key, i as int).push(
                        pair_at(events@, i as int),
                    )
                } else {
                    group_pairs_below::<ReadingName, IndexDimmension>(events@, key, i as int)
                } by {
                lemma_group_pairs_step::<ReadingName, IndexDimmension>(events@, key, i as int);
            }
        }
        let event = &events[i];
        if event.fits_types::<ReadingName, IndexDimmension>() {
            let key = event.id_type;
            let found = groups.remove(&key);
            let mut group = match found {
                Some(group) => group,
                None => {
                    keys.push(key);
                    Vec::new()
                },
            };
            proof {
                assert(group@ == group_pairs_below::<ReadingName, IndexDimmension>(
                    events@,
                    key,
                    i as int,
                )) by {
                    if groups_before.contains_key(key) {
                        assert(groups_before[key]@ == group_pairs_below::<
                            ReadingName,
                            IndexDimmension,
                        >(events@, key, i as int));
                    } else {
                        assert(group_pairs_below::<ReadingName, IndexDimmension>(
                            events@,
                            key,
                            i as int,
                        ).len() == 0);
                        assert(group@ =~= group_pairs_below::<ReadingName, IndexDimmension>(
                            events@,
                            key,
                            i as int,
                        ));
                    }
                }
            }
            group.push((event.record_id, i));
            groups.insert(key, group);
            proof {
                assert(groups@ =~= groups_before.insert(key, group));
                assert(keys@.no_duplicates()) by {
                    if !groups_before.contains_key(key) {
                        assert(keys@ == keys_before.push(key));
                        assert(!keys_before.contains(key));
                        assert forall|a: int, b: int|
                            0 <= a < keys@.len() && 0 <= b < keys@.len() && a != b implies keys@[a]
                            != keys@[b] by {
                            if a < keys_before.len() {
                                assert(keys_before.contains(keys_before[a]));
                            }
                            if b < keys_before.len() {
                                assert(keys_before.contains(keys_before[b]));
                            }
                        }
                    }
                }
                assert forall|k: usize| keys@.contains(k) <==> groups@.contains_key(k) by {
                    if groups_before.contains_key(key) {
                        assert(keys@ == keys_before);
                    } else {
                        assert(keys@ == keys_before.push(key));
                        if keys_before.contains(k) {
                            let at = choose|at: int| 0 <= at < keys_before.len() && keys_before[at] == k;
                            assert(keys@[at] == k);
                        }
                        if k == key {
                            assert(keys@[keys_before.len() as int] == k);
                        }
                    }
                }
            }
        }
        i += 1;
    }
    (keys, groups)
}

/// `history` is what retrieval hands out for `events` under `handling`: it
/// has an entry for each index dimension with an event that can be read, and
/// the entry is the group of that dimension.
pub open spec fn is_history_of<
    ReadingName: ValidRapidRecorderNamedUsize,
    IndexDimmension: ValidRapidRecorderNamedUsize,
>(
    history: Map<usize, Vec<RREvent<ReadingName, IndexDimmension>>>,
    events: Seq<RawRREvent>,
    handling: RRDuplicateEventIdHandling,
) -> bool {
    &&& forall|key: usize|
        history.contains_key(key) <==> (#[trigger] group_pairs::<ReadingName, IndexDimmension>(
            events,
            key,
        )).len() > 0
    &&& forall|key: usize|
        history.contains_key(key) ==> views_of((#[trigger] history[key])@) == group_of::<
            ReadingName,
            IndexDimmension,
        >(events, key, handling)
}

/// Whatever stays of a group was in the group.
pub proof fn lemma_ordered_pairs_within(pairs: Seq<IdAt>, handling: RRDuplicateEventIdHandling)
    ensures
        forall|j: int|
            0 <= j < ordered_pairs(pairs, handling).len() ==> pairs.contains(
                #[trigger] ordered_pairs(pairs, handling)[j],
            ),
{
    let kept = kept_pairs(pairs, handling);
    let ordered = ordered_pairs(pairs, handling);
    lemma_group_order_is_total();
    kept.lemma_sort_by_ensures(group_order());
    assert forall|j: int| 0 <= j < ordered.len() implies pairs.contains(#[trigger] ordered[j]) by {
        let p = ordered[j];
        assert(ordered.contains(p));
        assert(kept.contains(p));
        match handling {
            RRDuplicateEventIdHandling::KeepOnlyFirst => {
                pairs.lemma_filter_contains_rev(|p: IdAt| first_of_id(pairs, p), p);
            },
            RRDuplicateEventIdHandling::KeepOnlyLast => {
                pairs.lemma_filter_contains_rev(|p: IdAt| last_of_id(pairs, p), p);
            },
            RRDuplicateEventIdHandling::KeepBoth => {},
        }
    }
}

/// Groups events by index dimension and orders each group by id.
///
/// `events` are the events in the order they were pushed. One that cannot be
/// read with the two types is left out. The result maps the integer of an index
/// dimension to the events of that dimension that stay under `handling`; a
/// dimension without events has no entry. Among events with the same id, the
/// one pushed earlier comes first.
pub fn organize_events<
    ReadingName: ValidRapidRecorderNamedUsize,
    IndexDimmension: ValidRapidRecorderNamedUsize,
>(events: &Vec<RawRREvent>, handling: RRDuplicateEventIdHandling) -> (history: HashMap<
    usize,
    Vec<RREvent<ReadingName, IndexDimmension>>,
>)
    ensures
        is_history_of(history@, events@, handling),
{
    let (keys, mut groups) = collect_groups::<ReadingName, IndexDimmension>(events);
    let mut history: HashMap<usize, Vec<RREvent<ReadingName, IndexDimmension>>> = HashMap::new();
    let mut j: usize = 0;
    proof {
        assert(events@.len() == events.len());
        assert forall|key: usize| groups@.contains_key(key) <==> exists|a: int|
            0 <= a < keys.len() && #[trigger] keys@[a] == key by {
            if keys@.contains(key) {
                let a = choose|a: int| 0 <= a < keys@.len() && keys@[a] == key;
                assert(keys@[a] == key);
            }
        }
    }
    while j < keys.len()
        invariant
            j <= keys.len(),
            events@.len() <= usize::MAX,
            keys@.no_duplicates(),
            forall|key: usize|
                keys@.contains(key) <==> (#[trigger] group_pairs::<ReadingName, IndexDimmension>(
                    events@,
                    key,
                )).len() > 0,
            forall|key: usize|
                history@.contains_key(key) <==> exists|a: int|
                    0 <= a < j && #[trigger] keys@[a] == key,
            forall|key: usize|
                groups@.contains_key(key) <==> exists|a: int|
                    j <= a < keys.len() && #[trigger] keys@[a] == key,
            forall|key: usize|
                groups@.contains_key(key) ==> (#[trigger] groups@[key])@ == group_pairs::<
                    ReadingName,
                    IndexDimmension,
                >(events@, key),
            forall|key: usize|
                history@.contains_key(key) ==> views_of((#[trigger] history@[key])@) == group_of::<
                    ReadingName,
                    IndexDimmension,
                >(events@, key, handling),
        decreases keys.len() - j,
    {
        let key = keys[j];
        let ghost history_before = history@;
        let ghost groups_before = groups@;
        assert(groups@.contains_key(key));
        if let Some(pairs) = groups.remove(&key) {
            proof {
                lemma_group_pairs_below::<ReadingName, IndexDimmension>(
                    events@,
                    key,
                    events@.len() as int,
                );
                lemma_ordered_pairs_within(pairs@, handling);
            }
            let ordered = order_pairs(pairs, handling);
            proof {
                assert forall|a: int| 0 <= a < ordered.len() implies (#[trigger] ordered[a]).1
                    < events.len() && events[ordered[a].1 as int].fits::<
                    ReadingName,
                    IndexDimmension,
                >() by {
                    let p = ordered@[a];
                    assert(pairs@.contains(p));
                    let at = choose|at: int| 0 <= at < pairs@.len() && pairs@[at] == p;
                    assert(group_pairs_below::<ReadingName, IndexDimmension>(
                        events@,
                        key,
                        events@.len() as int,
                    )[at] == p);
                }
            }
            let group = read_group::<ReadingName, IndexDimmension>(events, &ordered);
            history.insert(key, group);
            proof {
                assert(history@ =~= history_before.insert(key, group));
                assert(groups@ =~= groups_before.remove(key));
                assert forall|k: usize| groups@.contains_key(k) <==> exists|a: int|
                    j + 1 <= a < keys.len() && #[trigger] keys@[a] == k by {
                    if groups@.contains_key(k) {
                        let a = choose|a: int| j <= a < keys.len() && #[trigger] keys@[a] == k;
                        assert(a != j);
                    }
                    if exists|a: int| j + 1 <= a < keys.len() && #[trigger] keys@[a] == k {
                        let a = choose|a: int| j + 1 <= a < keys.len() && #[trigger] keys@[a] == k;
                        assert(keys@[a] != keys@[j as int]);
                    }
                }
                assert forall|k: usize| history@.contains_key(k) <==> exists|a: int|
                    0 <= a < j + 1 && #[trigger] keys@[a] == k by {
                    if k == key {
                        assert(keys@[j as int] == k);
                    }
                }
            }
        }
        j += 1;
    }
    proof {
        assert forall|key: usize| history@.contains_key(key) <==> keys@.contains(key) by {}
    }
    history
}

} // verus!
