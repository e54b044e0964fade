//! What holds of the groups that retrieval hands out.

use vstd::prelude::*;
use crate::event::RawRREvent;
use crate::history::first_of_id;
use crate::history::group_of;
use crate::history::group_order;
use crate::history::group_pairs;
use crate::history::group_pairs_below;
use crate::history::has_id;
use crate::history::id_then_position;
use crate::history::in_group;
use crate::history::kept_pairs;
use crate::history::last_of_id;
use crate::history::lemma_group_order_is_total;
use crate::history::lemma_group_pairs_below;
use crate::history::lemma_ordered_pairs_within;
use crate::history::ordered_pairs;
use crate::history::pair_at;
use crate::history::positions_grow;
use crate::history::IdAt;
use crate::named_usize::ValidRapidRecorderNamedUsize;
use crate::RRDuplicateEventIdHandling;

verus! {

/// Leaving events out of a group keeps the positions growing.
proof fn lemma_filter_keeps_growth(pairs: Seq<IdAt>, stays: spec_fn(IdAt) -> bool)
    requires
        positions_grow(pairs),
    ensures
        positions_grow(pairs.filter(stays)),
        pairs.filter(stays).no_duplicates(),
    decreases pairs.len(),
{
    reveal(Seq::filter);
    if pairs.len() > 0 {
        let init = pairs.drop_last();
        lemma_filter_keeps_growth(init, stays);
        let kept = init.filter(stays);
        assert forall|i: int| 0 <= i < kept.len() implies (#[trigger] kept[i]).1
            < pairs.last().1 by {
            let p = kept[i];
            assert(kept.contains(p));
            init.lemma_filter_contains_rev(stays, p);
            let at = choose|at: int| 0 <= at < init.len() && init[at] == p;
            assert(pairs[at] == p);
        }
    }
}

/// Two arrangements of the same events are as long as each other and hold
/// the same events.
proof fn lemma_same_events(a: Seq<IdAt>, b: Seq<IdAt>)
    requires
        a.to_multiset() == b.to_multiset(),
    ensures
        a.len() == b.len(),
        forall|p: IdAt| a.contains(p) <==> b.contains(p),
{
    a.to_multiset_ensures();
    b.to_multiset_ensures();
    assert forall|p: IdAt| a.contains(p) <==> b.contains(p) by {
        assert(a.contains(p) <==> a.to_multiset().count(p) > 0);
        assert(b.contains(p) <==> b.to_multiset().count(p) > 0);
    }
}

/// Before any event of a group there is a first one with its id.
proof fn lemma_first_occurrence(pairs: Seq<IdAt>, j: int) -> (m: int)
    requires
        0 <= j < pairs.len(),
    ensures
        0 <= m <= j,
        pairs[m].0 == pairs[j].0,
        forall|k: int| 0 <= k < m ==> (#[trigger] pairs[k]).0 != pairs[j].0,
    decreases j,
{
    if exists|k: int| 0 <= k < j && (#[trigger] pairs[k]).0 == pairs[j].0 {
        let k = choose|k: int| 0 <= k < j && (#[trigger] pairs[k]).0 == pairs[j].0;
        lemma_first_occurrence(pairs, k)
    } else {
        j
    }
}

/// After any event of a group there is a last one with its id.
proof fn lemma_last_occurrence(pairs: Seq<IdAt>, j: int) -> (m: int)
    requires
        0 <= j < pairs.len(),
    ensures
        j <= m < pairs.len(),
        pairs[m].0 == pairs[j].0,
        forall|k: int| m < k < pairs.len() ==> (#[trigger] pairs[k]).0 != pairs[j].0,
    decreases pairs.len() - j,
{
    if exists|k: int| j < k < pairs.len() && (#[trigger] pairs[k]).0 == pairs[j].0 {
        let k = choose|k: int| j < k < pairs.len() && (#[trigger] pairs[k]).0 == pairs[j].0;
        lemma_last_occurrence(pairs, k)
    } else {
        j
    }
}

/// A group is handed out ordered by id: ids never fall along it, and events
/// with the same id stand in the order they were pushed. With every event
/// kept, the group holds the events that were pushed, each as often as it was
/// pushed.
pub proof fn lemma_groups_are_ordered(pairs: Seq<IdAt>, handling: RRDuplicateEventIdHandling)
    ensures
        forall|a: int, b: int|
            0 <= a < b < ordered_pairs(pairs, handling).len() ==> id_then_position(
                #[trigger] ordered_pairs(pairs, handling)[a],
                #[trigger] ordered_pairs(pairs, handling)[b],
            ),
        ordered_pairs(pairs, handling).to_multiset() == kept_pairs(pairs, handling).to_multiset(),
        ordered_pairs(pairs, handling).len() == kept_pairs(pairs, handling).len(),
        ordered_pairs(pairs, RRDuplicateEventIdHandling::KeepBoth).len() == pairs.len(),
{
    lemma_group_order_is_total();
    kept_pairs(pairs, handling).lemma_sort_by_ensures(group_order());
    pairs.lemma_sort_by_ensures(group_order());
    let ordered = ordered_pairs(pairs, handling);
    lemma_same_events(ordered, kept_pairs(pairs, handling));
    lemma_same_events(ordered_pairs(pairs, RRDuplicateEventIdHandling::KeepBoth), pairs);
    assert forall|a: int, b: int| 0 <= a < b < ordered.len() implies id_then_position(
        #[trigger] ordered[a],
        #[trigger] ordered[b],
    ) by {
        assert(group_order()(ordered[a], ordered[b]));
    }
}

/// Keeping the first of each id: the group then holds exactly one event for
/// each id that was pushed, the one pushed first, and ids rise along it.
pub proof fn lemma_keep_only_first(pairs: Seq<IdAt>)
    requires
        positions_grow(pairs),
    ensures
        forall|a: int, b: int|
            0 <= a < b < ordered_pairs(pairs, RRDuplicateEventIdHandling::KeepOnlyFirst).len() ==> (
            #[trigger] ordered_pairs(pairs, RRDuplicateEventIdHandling::KeepOnlyFirst)[a]).0 < (
            #[trigger] ordered_pairs(pairs, RRDuplicateEventIdHandling::KeepOnlyFirst)[b]).0,
        forall|a: int|
            0 <= a < ordered_pairs(pairs, RRDuplicateEventIdHandling::KeepOnlyFirst).len() ==> {
                let p = #[trigger] ordered_pairs(pairs, RRDuplicateEventIdHandling::KeepOnlyFirst)[a];
                pairs.contains(p) && first_of_id(pairs, p)
            },
        forall|j: int|
            0 <= j < pairs.len() ==> has_id(
                ordered_pairs(pairs, RRDuplicateEventIdHandling::KeepOnlyFirst),
                (#[trigger] pairs[j]).0,
            ),
{
    let handling = RRDuplicateEventIdHandling::KeepOnlyFirst;
    let stays = |p: IdAt| first_of_id(pairs, p);
    let kept = kept_pairs(pairs, handling);
    let ordered = ordered_pairs(pairs, handling);
    lemma_groups_are_ordered(pairs, handling);
    lemma_ordered_pairs_within(pairs, handling);
    lemma_filter_keeps_growth(pairs, stays);
    kept.lemma_multiset_has_no_duplicates();
    ordered.lemma_multiset_has_no_duplicates_conv();
    lemma_same_events(ordered, kept);
    assert forall|a: int| 0 <= a < ordered.len() implies first_of_id(
        pairs,
        #[trigger] ordered[a],
    ) by {
        let p = ordered[a];
        assert(ordered.contains(p));
        assert(kept.contains(p));
        let at = choose|at: int| 0 <= at < kept.len() && kept[at] == p;
        pairs.lemma_filter_pred(stays, at);
    }
    assert forall|a: int, b: int| 0 <= a < b < ordered.len() implies (#[trigger] ordered[a]).0 < (
    #[trigger] ordered[b]).0 by {
        let p = ordered[a];
        let q = ordered[b];
        assert(id_then_position(p, q));
        if p.0 == q.0 {
            assert(pairs.contains(p) && pairs.contains(q));
            let i = choose|i: int| 0 <= i < pairs.len() && pairs[i] == p;
            let j = choose|j: int| 0 <= j < pairs.len() && pairs[j] == q;
            assert(pairs[i].1 <= pairs[j].1 && pairs[j].1 <= pairs[i].1);
            assert(p == q);
        }
    }
    assert forall|j: int| 0 <= j < pairs.len() implies has_id(ordered, (#[trigger] pairs[j]).0) by {
        let m = lemma_first_occurrence(pairs, j);
        let p = pairs[m];
        assert forall|k: int| 0 <= k < pairs.len() && pairs[k].0 == p.0 implies p.1 <= (
        #[trigger] pairs[k]).1 by {
            if k < m {
                assert(pairs[k].0 != pairs[j].0);
            }
        }
        assert(stays(p));
        pairs.lemma_filter_contains(stays, m);
        assert(kept.contains(p));
        assert(ordered.contains(p));
        let a = choose|a: int| 0 <= a < ordered.len() && ordered[a] == p;
        assert(ordered[a].0 == pairs[j].0);
    }
}

/// Keeping the last of each id: the group then holds exactly one event for
/// each id that was pushed, the one pushed last, and ids rise along it.
pub proof fn lemma_keep_only_last(pairs: Seq<IdAt>)
    requires
        positions_grow(pairs),
    ensures
        forall|a: int, b: int|
            0 <= a < b < ordered_pairs(pairs, RRDuplicateEventIdHandling::KeepOnlyLast).len() ==> (
            #[trigger] ordered_pairs(pairs, RRDuplicateEventIdHandling::KeepOnlyLast)[a]).0 < (
            #[trigger] ordered_pairs(pairs, RRDuplicateEventIdHandling::KeepOnlyLast)[b]).0,
        forall|a: int|
            0 <= a < ordered_pairs(pairs, RRDuplicateEventIdHandling::KeepOnlyLast).len() ==> {
                let p = #[trigger] ordered_pairs(pairs, RRDuplicateEventIdHandling::KeepOnlyLast)[a];
                pairs.contains(p) && last_of_id(pairs, p)
            },
        forall|j: int|
            0 <= j < pairs.len() ==> has_id(
                ordered_pairs(pairs, RRDuplicateEventIdHandling::KeepOnlyLast),
                (#[trigger] pairs[j]).0,
            ),
{
    let handling = RRDuplicateEventIdHandling::KeepOnlyLast;
    let stays = |p: IdAt| last_of_id(pairs, p);
    let kept = kept_pairs(pairs, handling);
    let ordered = ordered_pairs(pairs, handling);
    lemma_groups_are_ordered(pairs, handling);
    lemma_ordered_pairs_within(pairs, handling);
    lemma_filter_keeps_growth(pairs, stays);
    kept.lemma_multiset_has_no_duplicates();
    ordered.lemma_multiset_has_no_duplicates_conv();
    lemma_same_events(ordered, kept);
    assert forall|a: int| 0 <= a < ordered.len() implies last_of_id(
        pairs,
        #[trigger] ordered[a],
    ) by {
        let p = ordered[a];
        assert(ordered.contains(p));
        assert(kept.contains(p));
        let at = choose|at: int| 0 <= at < kept.len() && kept[at] == p;
        pairs.lemma_filter_pred(stays, at);
    }
    assert forall|a: int, b: int| 0 <= a < b < ordered.len() implies (#[trigger] ordered[a]).0 < (
    #[trigger] ordered[b]).0 by {
        let p = ordered[a];
        let q = ordered[b];
        assert(id_then_position(p, q));
        if p.0 == q.0 {
            assert(pairs.contains(p) && pairs.contains(q));
            let i = choose|i: int| 0 <= i < pairs.len() && pairs[i] == p;
            let j = choose|j: int| 0 <= j < pairs.len() && pairs[j] == q;
            assert(pairs[i].1 <= pairs[j].1 && pairs[j].1 <= pairs[i].1);
            assert(p == q);
        }
    }
    assert forall|j: int| 0 <= j < pairs.len() implies has_id(ordered, (#[trigger] pairs[j]).0) by {
        let m = lemma_last_occurrence(pairs, j);
        let p = pairs[m];
        assert forall|k: int| 0 <= k < pairs.len() && pairs[k].0 == p.0 implies (
        #[trigger] pairs[k]).1 <= p.1 by {
            if k > m {
                assert(pairs[k].0 != pairs[j].0);
            }
        }
        assert(stays(p));
        pairs.lemma_filter_contains(stays, m);
        assert(kept.contains(p));
        assert(ordered.contains(p));
        let a = choose|a: int| 0 <= a < ordered.len() && ordered[a] == p;
        assert(ordered[a].0 == pairs[j].0);
    }
}

/// What the pairs of a group say of the events handed out: the event at a
/// place of the group is the event at the position of the pair at that place,
/// read by names, and has the pair's id.
pub proof fn lemma_group_events<
    ReadingName: ValidRapidRecorderNamedUsize,
    IndexDimmension: ValidRapidRecorderNamedUsize,
>(events: Seq<RawRREvent>, key: usize, handling: RRDuplicateEventIdHandling)
    requires
        events.len() <= usize::MAX,
    ensures
        positions_grow(group_pairs::<ReadingName, IndexDimmension>(events, key)),
        group_of::<ReadingName, IndexDimmension>(events, key, handling).len() == ordered_pairs(
            group_pairs::<ReadingName, IndexDimmension>(events, key),
            handling,
        ).len(),
        forall|a: int|
            0 <= a < group_of::<ReadingName, IndexDimmension>(events, key, handling).len() ==> {
                let p = ordered_pairs(
                    group_pairs::<ReadingName, IndexDimmension>(events, key),
                    handling,
                )[a];
                let event = #[trigger] group_of::<ReadingName, IndexDimmension>(
                    events,
                    key,
                    handling,
                )[a];
                &&& p.1 < events.len()
                &&& events[p.1 as int].fits::<ReadingName, IndexDimmension>()
                &&& events[p.1 as int].id_type == key
                &&& event == events[p.1 as int].structured::<ReadingName, IndexDimmension>()
                &&& event.id == p.0
            },
{
    let pairs = group_pairs::<ReadingName, IndexDimmension>(events, key);
    let ordered = ordered_pairs(pairs, handling);
    lemma_group_pairs_below::<ReadingName, IndexDimmension>(events, key, events.len() as int);
    lemma_ordered_pairs_within(pairs, handling);
    assert forall|a: int| 0 <= a < ordered.len() implies {
        let p = #[trigger] ordered[a];
        &&& p.1 < events.len()
        &&& events[p.1 as int].fits::<ReadingName, IndexDimmension>()
        &&& events[p.1 as int].id_type == key
        &&& p.0 == events[p.1 as int].record_id
    } by {
        let p = ordered[a];
        assert(pairs.contains(p));
        let at = choose|at: int| 0 <= at < pairs.len() && pairs[at] == p;
        assert(group_pairs_below::<ReadingName, IndexDimmension>(
            events,
            key,
            events.len() as int,
        )[at] == p);
    }
}

/// The position, among the events taken out, of the event at place `a` of the
/// group `key`.
pub open spec fn position_of<
    ReadingName: ValidRapidRecorderNamedUsize,
    IndexDimmension: ValidRapidRecorderNamedUsize,
>(events: Seq<RawRREvent>, key: usize, handling: RRDuplicateEventIdHandling, a: int) -> int {
    ordered_pairs(group_pairs::<ReadingName, IndexDimmension>(events, key), handling)[a].1 as int
}

/// The event at position `i` belongs to the group `key`.
pub open spec fn belongs_to<
    ReadingName: ValidRapidRecorderNamedUsize,
    IndexDimmension: ValidRapidRecorderNamedUsize,
>(events: Seq<RawRREvent>, key: usize, i: int) -> bool {
    &&& 0 <= i < events.len()
    &&& events[i].fits::<ReadingName, IndexDimmension>()
    &&& events[i].id_type == key
}

/// The events of a group are in the list of its pairs.
proof fn lemma_group_holds_its_events<
    ReadingName: ValidRapidRecorderNamedUsize,
    IndexDimmension: ValidRapidRecorderNamedUsize,
>(events: Seq<RawRREvent>, key: usize, i: int)
    requires
        events.len() <= usize::MAX,
        belongs_to::<ReadingName, IndexDimmension>(events, key, i),
    ensures
        group_pairs::<ReadingName, IndexDimmension>(events, key).contains(pair_at(events, i)),
{
    let all = Seq::new(events.len(), |i: int| pair_at(events, i));
    assert(all[i] == pair_at(events, i));
    all.lemma_filter_contains(in_group::<ReadingName, IndexDimmension>(events, key), i);
}

/// Every group that retrieval hands out is sorted by id: ids never fall along
/// it, whatever is done about events with the same id.
pub proof fn lemma_group_sorted_by_id<
    ReadingName: ValidRapidRecorderNamedUsize,
    IndexDimmension: ValidRapidRecorderNamedUsize,
>(events: Seq<RawRREvent>, key: usize, handling: RRDuplicateEventIdHandling)
    requires
        events.len() <= usize::MAX,
    ensures
        forall|a: int, b: int|
            0 <= a <= b < group_of::<ReadingName, IndexDimmension>(events, key, handling).len()
                ==> (#[trigger] group_of::<ReadingName, IndexDimmension>(
                events,
                key,
                handling,
            )[a]).id <= (#[trigger] group_of::<ReadingName, IndexDimmension>(
                events,
                key,
                handling,
            )[b]).id,
{
    let pairs = group_pairs::<ReadingName, IndexDimmension>(events, key);
    let ordered = ordered_pairs(pairs, handling);
    let group = group_of::<ReadingName, IndexDimmension>(events, key, handling);
    lemma_group_events::<ReadingName, IndexDimmension>(events, key, handling);
    lemma_groups_are_ordered(pairs, handling);
    assert forall|a: int, b: int| 0 <= a <= b < group.len() implies (#[trigger] group[a]).id <= (
    #[trigger] group[b]).id by {
        if a < b {
            assert(id_then_position(ordered[a], ordered[b]));
        }
    }
}

/// With every event kept, a group holds each of its events, and events with
/// the same id stand in the order they were pushed.
pub proof fn lemma_keep_both_in_group<
    ReadingName: ValidRapidRecorderNamedUsize,
    IndexDimmension: ValidRapidRecorderNamedUsize,
>(events: Seq<RawRREvent>, key: usize)
    requires
        events.len() <= usize::MAX,
    ensures
        group_of::<ReadingName, IndexDimmension>(
            events,
            key,
            RRDuplicateEventIdHandling::KeepBoth,
        ).len() == group_pairs::<ReadingName, IndexDimmension>(events, key).len(),
        forall|a: int, b: int|
            #![trigger position_of::<ReadingName, IndexDimmension>(events, key, RRDuplicateEventIdHandling::KeepBoth, a), position_of::<ReadingName, IndexDimmension>(events, key, RRDuplicateEventIdHandling::KeepBoth, b)]
            0 <= a < b < group_of::<ReadingName, IndexDimmension>(
                events,
                key,
                RRDuplicateEventIdHandling::KeepBoth,
            ).len() && group_of::<ReadingName, IndexDimmension>(
                events,
                key,
                RRDuplicateEventIdHandling::KeepBoth,
            )[a].id == group_of::<ReadingName, IndexDimmension>(
                events,
                key,
                RRDuplicateEventIdHandling::KeepBoth,
            )[b].id ==> position_of::<ReadingName, IndexDimmension>(
                events,
                key,
                RRDuplicateEventIdHandling::KeepBoth,
                a,
            ) <= position_of::<ReadingName, IndexDimmension>(
                events,
                key,
                RRDuplicateEventIdHandling::KeepBoth,
                b,
            ),
        forall|i: int|
            belongs_to::<ReadingName, IndexDimmension>(events, key, i) ==> ordered_pairs(
                group_pairs::<ReadingName, IndexDimmension>(events, key),
                RRDuplicateEventIdHandling::KeepBoth,
            ).contains(#[trigger] pair_at(events, i)),
{
    let handling = RRDuplicateEventIdHandling::KeepBoth;
    let pairs = group_pairs::<ReadingName, IndexDimmension>(events, key);
    let ordered = ordered_pairs(pairs, handling);
    let group = group_of::<ReadingName, IndexDimmension>(events, key, handling);
    lemma_group_events::<ReadingName, IndexDimmension>(events, key, handling);
    lemma_groups_are_ordered(pairs, handling);
    lemma_same_events(ordered, pairs);
    assert forall|a: int, b: int|
        0 <= a < b < group.len() && group[a].id == group[b].id implies position_of::<
        ReadingName,
        IndexDimmension,
    >(events, key, handling, a) <= position_of::<ReadingName, IndexDimmension>(
        events,
        key,
        handling,
        b,
    ) by {
        assert(id_then_position(ordered[a], ordered[b]));
    }
    assert forall|i: int|
        belongs_to::<ReadingName, IndexDimmension>(events, key, i) implies ordered.contains(
        #[trigger] pair_at(events, i),
    ) by {
        lemma_group_holds_its_events::<ReadingName, IndexDimmension>(events, key, i);
    }
}

/// Keeping the first of each id, a group holds exactly one event for each id
/// among its events: ids rise along the group, every id of an event of the
/// group is there, and the event that stands for an id was pushed before
/// every other event of the group with that id.
pub proof fn lemma_keep_first_in_group<
    ReadingName: ValidRapidRecorderNamedUsize,
    IndexDimmension: ValidRapidRecorderNamedUsize,
>(events: Seq<RawRREvent>, key: usize)
    requires
        events.len() <= usize::MAX,
    ensures
        forall|a: int, b: int|
            0 <= a < b < group_of::<ReadingName, IndexDimmension>(
                events,
                key,
                RRDuplicateEventIdHandling::KeepOnlyFirst,
            ).len() ==> (#[trigger] group_of::<ReadingName, IndexDimmension>(
                events,
                key,
                RRDuplicateEventIdHandling::KeepOnlyFirst,
            )[a]).id < (#[trigger] group_of::<ReadingName, IndexDimmension>(
                events,
                key,
                RRDuplicateEventIdHandling::KeepOnlyFirst,
            )[b]).id,
        forall|i: int|
            belongs_to::<ReadingName, IndexDimmension>(events, key, i) ==> has_id(
                ordered_pairs(
                    group_pairs::<ReadingName, IndexDimmension>(events, key),
                    RRDuplicateEventIdHandling::KeepOnlyFirst,
                ),
                (#[trigger] events[i]).record_id,
            ),
        forall|a: int, i: int|
            #![trigger position_of::<ReadingName, IndexDimmension>(events, key, RRDuplicateEventIdHandling::KeepOnlyFirst, a), events[i]]
            0 <= a < group_of::<ReadingName, IndexDimmension>(
                events,
                key,
                RRDuplicateEventIdHandling::KeepOnlyFirst,
            ).len() && belongs_to::<ReadingName, IndexDimmension>(events, key, i)
                && events[i].record_id == group_of::<ReadingName, IndexDimmension>(
                events,
                key,
                RRDuplicateEventIdHandling::KeepOnlyFirst,
            )[a].id ==> position_of::<ReadingName, IndexDimmension>(
                events,
                key,
                RRDuplicateEventIdHandling::KeepOnlyFirst,
                a,
            ) <= i,
{
    let handling = RRDuplicateEventIdHandling::KeepOnlyFirst;
    let pairs = group_pairs::<ReadingName, IndexDimmension>(events, key);
    let ordered = ordered_pairs(pairs, handling);
    let group = group_of::<ReadingName, IndexDimmension>(events, key, handling);
    lemma_group_events::<ReadingName, IndexDimmension>(events, key, handling);
    lemma_keep_only_first(pairs);
    assert forall|a: int, b: int| 0 <= a < b < group.len() implies (#[trigger] group[a]).id < (
    #[trigger] group[b]).id by {
        assert(ordered[a].0 < ordered[b].0);
    }
    assert forall|i: int|
        belongs_to::<ReadingName, IndexDimmension>(events, key, i) implies has_id(
        ordered,
        (#[trigger] events[i]).record_id,
    ) by {
        lemma_group_holds_its_events::<ReadingName, IndexDimmension>(events, key, i);
        let j = choose|j: int| 0 <= j < pairs.len() && pairs[j] == pair_at(events, i);
        assert(has_id(ordered, pairs[j].0));
    }
    assert forall|a: int, i: int|
        #![trigger position_of::<ReadingName, IndexDimmension>(events, key, handling, a), events[i]]
        0 <= a < group.len() && belongs_to::<ReadingName, IndexDimmension>(events, key, i)
            && events[i].record_id == group[a].id implies position_of::<
        ReadingName,
        IndexDimmension,
    >(events, key, handling, a) <= i by {
        lemma_group_holds_its_events::<ReadingName, IndexDimmension>(events, key, i);
        let j = choose|j: int| 0 <= j < pairs.len() && pairs[j] == pair_at(events, i);
        assert(first_of_id(pairs, ordered[a]));
        assert(ordered[a].1 <= pairs[j].1);
    }
}

/// Keeping the last of each id, a group holds exactly one event for each id
/// among its events: ids rise along the group, every id of an event of the
/// group is there, and the event that stands for an id was pushed after every
/// other event of the group with that id.
pub proof fn lemma_keep_last_in_group<
    ReadingName: ValidRapidRecorderNamedUsize,
    IndexDimmension: ValidRapidRecorderNamedUsize,
>(events: Seq<RawRREvent>, key: usize)
    requires
        events.len() <= usize::MAX,
    ensures
        forall|a: int, b: int|
            0 <= a < b < group_of::<ReadingName, IndexDimmension>(
                events,
                key,
                RRDuplicateEventIdHandling::KeepOnlyLast,
            ).len() ==> (#[trigger] group_of::<ReadingName, IndexDimmension>(
                events,
                key,
                RRDuplicateEventIdHandling::KeepOnlyLast,
            )[a]).id < (#[trigger] group_of::<ReadingName, IndexDimmension>(
                events,
                key,
                RRDuplicateEventIdHandling::KeepOnlyLast,
            )[b]).id,
        forall|i: int|
            belongs_to::<ReadingName, IndexDimmension>(events, key, i) ==> has_id(
                ordered_pairs(
                    group_pairs::<ReadingName, IndexDimmension>(events, key),
                    RRDuplicateEventIdHandling::KeepOnlyLast,
                ),
                (#[trigger] events[i]).record_id,
            ),
        forall|a: int, i: int|
            #![trigger position_of::<ReadingName, IndexDimmension>(events, key, RRDuplicateEventIdHandling::KeepOnlyLast, a), events[i]]
            0 <= a < group_of::<ReadingName, IndexDimmension>(
                events,
                key,
                RRDuplicateEventIdHandling::KeepOnlyLast,
            ).len() && belongs_to::<ReadingName, IndexDimmension>(events, key, i)
                && events[i].record_id == group_of::<ReadingName, IndexDimmension>(
                events,
                key,
                RRDuplicateEventIdHandling::KeepOnlyLast,
            )[a].id ==> i <= position_of::<ReadingName, IndexDimmension>(
                events,
                key,
                RRDuplicateEventIdHandling::KeepOnlyLast,
                a,
            ),
{
    let handling = RRDuplicateEventIdHandling::KeepOnlyLast;
    let pairs = group_pairs::<ReadingName, IndexDimmension>(events, key);
    let ordered = ordered_pairs(pairs, handling);
    let group = group_of::<ReadingName, IndexDimmension>(events, key, handling);
    lemma_group_events::<ReadingName, IndexDimmension>(events, key, handling);
    lemma_keep_only_last(pairs);
    assert forall|a: int, b: int| 0 <= a < b < group.len() implies (#[trigger] group[a]).id < (
    #[trigger] group[b]).id by {
        assert(ordered[a].0 < ordered[b].0);
    }
    assert forall|i: int|
        belongs_to::<ReadingName, IndexDimmension>(events, key, i) implies has_id(
        ordered,
        (#[trigger] events[i]).record_id,
    ) by {
        lemma_group_holds_its_events::<ReadingName, IndexDimmension>(events, key, i);
        let j = choose|j: int| 0 <= j < pairs.len() && pairs[j] == pair_at(events, i);
        assert(has_id(ordered, pairs[j].0));
    }
    assert forall|a: int, i: int|
        #![trigger position_of::<ReadingName, IndexDimmension>(events, key, handling, a), events[i]]
        0 <= a < group.len() && belongs_to::<ReadingName, IndexDimmension>(events, key, i)
            && events[i].record_id == group[a].id implies i <= position_of::<
        ReadingName,
        IndexDimmension,
    >(events, key, handling, a) by {
        lemma_group_holds_its_events::<ReadingName, IndexDimmension>(events, key, i);
        let j = choose|j: int| 0 <= j < pairs.len() && pairs[j] == pair_at(events, i);
        assert(last_of_id(pairs, ordered[a]));
        assert(pairs[j].1 <= ordered[a].1);
    }
}

} // verus!
