//! Enrichment of events with fields of the events of another watcher.

use serde_json::Value;
use vstd::prelude::*;

use crate::event::Event;
use crate::json::{map_contains_key, map_get, map_insert, members, value_clone};
use crate::text::{same_text, texts};
use crate::time::{in_calendar, Instant, TimeSpan, Timestamp};

verus! {

/// How long two events run at the same time, in nanoseconds: from the later start to
/// the earlier end. Zero where one ends before the other starts.
pub open spec fn overlap_ns(base: Event, sub: Event) -> int {
    if sub.timestamp@.before(base.end()) && base.timestamp@.before(sub.end()) {
        let start = if base.timestamp@.before(sub.timestamp@) {
            sub.timestamp@
        } else {
            base.timestamp@
        };
        let end = if sub.end().before(base.end()) {
            sub.end()
        } else {
            base.end()
        };
        end.since(start)
    } else {
        0
    }
}

/// Whether event `i` starts before event `j`; of two that start together the
/// first in the list does.
pub open spec fn starts_before(events: Seq<Event>, i: int, j: int) -> bool {
    ||| events[i].timestamp@.before(events[j].timestamp@)
    ||| events[i].timestamp@ == events[j].timestamp@ && i < j
}

/// Whether event `i` is a better match for `base` than event `j`: it overlaps
/// longer, or as long and starts before.
pub open spec fn outranks(base: Event, subs: Seq<Event>, i: int, j: int) -> bool {
    ||| overlap_ns(base, subs[i]) > overlap_ns(base, subs[j])
    ||| overlap_ns(base, subs[i]) == overlap_ns(base, subs[j]) && starts_before(subs, i, j)
}

/// Whether event `i` is the match of `base`: it overlaps and outranks every other
/// event.
pub open spec fn is_match(base: Event, subs: Seq<Event>, i: int) -> bool {
    &&& 0 <= i < subs.len()
    &&& overlap_ns(base, subs[i]) > 0
    &&& forall|j: int| 0 <= j < subs.len() && j != i ==> #[trigger] outranks(base, subs, i, j)
}

/// The match of an event, if it has one.
pub open spec fn match_of(base: Event, subs: Seq<Event>) -> Option<int> {
    if exists|i: int| is_match(base, subs, i) {
        Some(choose|i: int| is_match(base, subs, i))
    } else {
        None
    }
}

/// Whether a conflict rule lets the base event keep its value where both events
/// have a key.
pub open spec fn base_wins(conflict: Seq<char>) -> bool {
    conflict == "base_wins"@
}

/// Whether the value of a key is taken over from `sub`.
pub open spec fn takes_over(
    base: Map<Seq<char>, Value>,
    sub: Map<Seq<char>, Value>,
    keys: Seq<Seq<char>>,
    keep: bool,
    k: Seq<char>,
) -> bool {
    keys.contains(k) && sub.contains_key(k) && !(keep && base.contains_key(k))
}

/// The members of `base` with those of `sub` under the given keys. Where both
/// have a key, `base` keeps its value if `keep` says so.
pub open spec fn with_fields(
    base: Map<Seq<char>, Value>,
    sub: Map<Seq<char>, Value>,
    keys: Seq<Seq<char>>,
    keep: bool,
) -> Map<Seq<char>, Value> {
    Map::new(
        |k: Seq<char>| base.contains_key(k) || takes_over(base, sub, keys, keep, k),
        |k: Seq<char>|
            if takes_over(base, sub, keys, keep, k) {
                sub[k]
            } else {
                base[k]
            },
    )
}

/// The data of an event after enrichment.
pub open spec fn enriched_data(
    base: Event,
    subs: Seq<Event>,
    keys: Seq<Seq<char>>,
    keep: bool,
) -> Map<Seq<char>, Value> {
    match match_of(base, subs) {
        Some(i) => with_fields(members(base.data), members(subs[i].data), keys, keep),
        None => members(base.data),
    }
}

/// Whether a sequence lists each of the events `lo..hi` once, in the order of
/// their starts.
spec fn orders(events: Seq<Event>, order: Seq<usize>, lo: int, hi: int) -> bool {
    &&& forall|p: int| 0 <= p < order.len() ==> lo <= #[trigger] order[p] < hi
    &&& forall|p: int, q: int|
        0 <= p < q < order.len() ==> starts_before(
            events,
            #[trigger] order[p] as int,
            #[trigger] order[q] as int,
        )
    &&& forall|k: usize| lo <= k < hi ==> #[trigger] order.contains(k)
}

fn starts_before_at(events: &Vec<Event>, i: usize, j: usize) -> (r: bool)
    requires
        i < events.len(),
        j < events.len(),
    ensures
        r == starts_before(events@, i as int, j as int),
{
    if events[i].timestamp.is_before(&events[j].timestamp) {
        true
    } else if events[j].timestamp.is_before(&events[i].timestamp) {
        false
    } else {
        i < j
    }
}

fn merge_orders(
    events: &Vec<Event>,
    left: &Vec<usize>,
    right: &Vec<usize>,
    lo: usize,
    mid: usize,
    hi: usize,
) -> (order: Vec<usize>)
    requires
        lo <= mid <= hi <= events.len(),
        orders(events@, left@, lo as int, mid as int),
        orders(events@, right@, mid as int, hi as int),
    ensures
        orders(events@, order@, lo as int, hi as int),
{
    let mut order: Vec<usize> = Vec::new();
    let mut i: usize = 0;
    let mut j: usize = 0;
    while i < left.len() || j < right.len()
        invariant
            lo <= mid <= hi <= events.len(),
            orders(events@, left@, lo as int, mid as int),
            orders(events@, right@, mid as int, hi as int),
            i <= left.len(),
            j <= right.len(),
            forall|p: int| 0 <= p < order.len() ==> lo <= #[trigger] order[p] < hi,
            forall|p: int, q: int|
                0 <= p < q < order.len() ==> starts_before(
                    events@,
                    #[trigger] order[p] as int,
                    #[trigger] order[q] as int,
                ),
            forall|p: int, q: int|
                0 <= p < order.len() && i <= q < left.len() ==> starts_before(
                    events@,
                    #[trigger] order[p] as int,
                    #[trigger] left[q] as int,
                ),
            forall|p: int, q: int|
                0 <= p < order.len() && j <= q < right.len() ==> starts_before(
                    events@,
                    #[trigger] order[p] as int,
                    #[trigger] right[q] as int,
                ),
            forall|p: int| 0 <= p < i ==> order@.contains(#[trigger] left[p]),
            forall|p: int| 0 <= p < j ==> order@.contains(#[trigger] right[p]),
        decreases left.len() - i + right.len() - j,
    {
        let from_left = if i == left.len() {
            false
        } else if j == right.len() {
            true
        } else {
            starts_before_at(events, left[i], right[j])
        };
        let ghost before = order@;
        if from_left {
            order.push(left[i]);
            i = i + 1;
        } else {
            order.push(right[j]);
            j = j + 1;
        }
        proof {
            assert(order@[before.len() as int] == order@.last());
            assert forall|x: usize| before.contains(x) implies #[trigger] order@.contains(x) by {
                let p = choose|p: int| 0 <= p < before.len() && before[p] == x;
                assert(order@[p] == x);
            }
        }
    }
    proof {
        assert forall|k: usize| lo <= k < hi implies #[trigger] order@.contains(k) by {
            if k < mid {
                assert(left@.contains(k));
            } else {
                assert(right@.contains(k));
            }
        }
    }
    order
}

/// The events `lo..hi` in the order of their starts, by their places in the
/// list.
fn order_range(events: &Vec<Event>, lo: usize, hi: usize) -> (order: Vec<usize>)
    requires
        lo <= hi <= events.len(),
    ensures
        orders(events@, order@, lo as int, hi as int),
    decreases hi - lo,
{
    let mut order: Vec<usize> = Vec::new();
    if lo == hi {
        return order;
    }
    if hi - lo == 1 {
        order.push(lo);
        proof {
            assert(order@[0] == lo);
            assert forall|k: usize| lo <= k < hi implies #[trigger] order@.contains(k) by {}
        }
        return order;
    }
    let mid: usize = lo + (hi - lo) / 2;
    let left = order_range(events, lo, mid);
    let right = order_range(events, mid, hi);
    merge_orders(events, &left, &right, lo, mid, hi)
}

/// The place of the match of an event, found by a walk over the other events in
/// the order of their starts.
fn find_match(base: &Event, subs: &Vec<Event>, order: &Vec<usize>) -> (r: Option<usize>)
    requires
        orders(subs@, order@, 0, subs.len() as int),
        in_calendar(base.end()),
        forall|j: int|
            0 <= j < subs.len() && (#[trigger] subs[j]).timestamp@.before(base.end())
                ==> in_calendar(subs[j].end()),
    ensures
        r matches Some(i) ==> is_match(*base, subs@, i as int),
        r is None ==> forall|j: int|
            0 <= j < subs.len() ==> overlap_ns(*base, #[trigger] subs[j]) <= 0,
{
    let base_end: Timestamp = base.calculate_endtime();
    let mut best: Option<usize> = None;
    let mut best_len: TimeSpan = TimeSpan::zero();
    let mut p: usize = 0;
    while p < order.len()
        invariant
            p <= order.len(),
            base_end@ == base.end(),
            orders(subs@, order@, 0, subs.len() as int),
            forall|j: int|
                0 <= j < subs.len() && (#[trigger] subs[j]).timestamp@.before(base.end())
                    ==> in_calendar(subs[j].end()),
            best is None ==> best_len.ns() == 0,
            best matches Some(b) ==> {
                &&& b < subs.len()
                &&& best_len.ns() == overlap_ns(*base, subs[b as int])
                &&& best_len.ns() > 0
                &&& exists|q: int| 0 <= q < p && #[trigger] order[q] == b
                &&& forall|q: int|
                    0 <= q < p && #[trigger] order[q] != b ==> outranks(
                        *base,
                        subs@,
                        b as int,
                        order[q] as int,
                    )
            },
            forall|q: int|
                0 <= q < p ==> overlap_ns(*base, subs[#[trigger] order[q] as int]) <= best_len.ns(),
        ensures
            best is None ==> best_len.ns() == 0,
            best matches Some(b) ==> {
                &&& b < subs.len()
                &&& best_len.ns() == overlap_ns(*base, subs[b as int])
                &&& best_len.ns() > 0
                &&& forall|q: int|
                    0 <= q < order.len() && #[trigger] order[q] != b ==> outranks(
                        *base,
                        subs@,
                        b as int,
                        order[q] as int,
                    )
            },
            forall|q: int|
                0 <= q < order.len() ==> overlap_ns(*base, subs[#[trigger] order[q] as int])
                    <= best_len.ns(),
        decreases order.len() - p,
    {
        let i: usize = order[p];
        let sub = &subs[i];
        // No event from here on starts before the end of the base event.
        if !sub.timestamp.is_before(&base_end) {
            assert forall|q: int| p <= q < order.len() implies overlap_ns(
                *base,
                subs[#[trigger] order[q] as int],
            ) <= 0 by {
                assert(q == p || starts_before(subs@, order[p as int] as int, order[q] as int));
            }
            break;
        }
        let sub_end: Timestamp = sub.calculate_endtime();
        if base.timestamp.is_before(&sub_end) {
            let start: Timestamp = if base.timestamp.is_before(&sub.timestamp) {
                sub.timestamp
            } else {
                base.timestamp
            };
            let end: Timestamp = if sub_end.is_before(&base_end) {
                sub_end
            } else {
                base_end
            };
            let len: TimeSpan = end.since(start);
            assert(len.ns() == overlap_ns(*base, *sub));
            if best_len.is_shorter(&len) {
                best_len = len;
                best = Some(i);
            }
        }
        p = p + 1;
    }
    proof {
        if let Some(b) = best {
            assert forall|j: int| 0 <= j < subs.len() && j != b implies #[trigger] outranks(
                *base,
                subs@,
                b as int,
                j,
            ) by {
                assert(order@.contains(j as usize));
                let q = choose|q: int| 0 <= q < order.len() && order@[q] == j;
                assert(order[q] != b);
            }
        } else {
            assert forall|j: int| 0 <= j < subs.len() implies overlap_ns(
                *base,
                #[trigger] subs[j],
            ) <= 0 by {
                assert(order@.contains(j as usize));
                let q = choose|q: int| 0 <= q < order.len() && order@[q] == j;
                assert(overlap_ns(*base, subs[order[q] as int]) <= best_len.ns());
            }
        }
    }
    best
}

proof fn match_is_unique(base: Event, subs: Seq<Event>, i: int, j: int)
    requires
        is_match(base, subs, i),
        is_match(base, subs, j),
    ensures
        i == j,
{
    if i != j {
        assert(outranks(base, subs, i, j));
        assert(outranks(base, subs, j, i));
    }
}

/// Copies the named members of `sub` into `data`. A member that `data` has
/// already stays if `keep` says so.
fn copy_fields(
    data: &mut serde_json::Map<String, Value>,
    sub: &serde_json::Map<String, Value>,
    keys: &[String],
    keep: bool,
)
    ensures
        members(*final(data)) == with_fields(members(*old(data)), members(*sub), texts(keys@), keep),
{
    let ghost base = members(*data);
    let ghost names = texts(keys@);
    let mut i: usize = 0;
    assert(members(*data) =~= with_fields(base, members(*sub), names.take(0), keep));
    while i < keys.len()
        invariant
            i <= keys.len(),
            names == texts(keys@),
            members(*data) == with_fields(base, members(*sub), names.take(i as int), keep),
        decreases keys.len() - i,
    {
        let key = &keys[i];
        let ghost earlier = names.take(i as int);
        let ghost later = names.take(i + 1);
        proof {
            assert(later =~= earlier.push(key@));
            assert forall|k: Seq<char>| #[trigger] later.contains(k) <==> earlier.contains(k) || k
                == key@ by {
                if earlier.contains(k) {
                    let p = choose|p: int| 0 <= p < earlier.len() && earlier[p] == k;
                    assert(later[p] == k);
                }
                if k == key@ {
                    assert(later[i as int] == k);
                }
            }
        }
        if let Some(value) = map_get(sub, key.as_str()) {
            if !(keep && map_contains_key(data, key.as_str())) {
                map_insert(data, key.clone(), value_clone(value));
            }
        }
        assert(members(*data) =~= with_fields(base, members(*sub), later, keep));
        i = i + 1;
    }
    assert(names.take(names.len() as int) =~= names);
}

/// Whether every end that enrichment looks at lies within the calendar.
pub open spec fn ends_in_calendar(base_events: Seq<Event>, subs: Seq<Event>) -> bool {
    &&& forall|i: int| 0 <= i < base_events.len() ==> in_calendar(
        (#[trigger] base_events[i]).end(),
    )
    &&& forall|i: int, j: int|
        0 <= i < base_events.len() && 0 <= j < subs.len() && (
        #[trigger] subs[j]).timestamp@.before((#[trigger] base_events[i]).end()) ==> in_calendar(
            subs[j].end(),
        )
}

/// Gives each base event the named fields of the subwatcher event that overlaps
/// it longest.
///
/// Of two overlaps that are as long, the event that starts first is taken, and of
/// two that start together the first in the list. A base event that no subwatcher
/// event overlaps keeps its data. Ids, timestamps, durations and the number of
/// base events stay as they are.
///
/// `conflict` is `"base_wins"`, under which the base event keeps the fields that
/// it has, or `"sub_wins"`, under which those of the subwatcher event replace
/// them.
pub fn merge_subwatcher_fields(
    base_events: Vec<Event>,
    subwatcher_events: Vec<Event>,
    keys: &[String],
    conflict: &str,
) -> (enriched: Vec<Event>)
    requires
        conflict@ == "base_wins"@ || conflict@ == "sub_wins"@,
        subwatcher_events.len() > 0 && keys@.len() > 0 ==> ends_in_calendar(
            base_events@,
            subwatcher_events@,
        ),
    ensures
        enriched.len() == base_events.len(),
        forall|i: int|
            0 <= i < enriched.len() ==> (#[trigger] enriched[i]).id == base_events[i].id
                && enriched[i].timestamp == base_events[i].timestamp && enriched[i].duration
                == base_events[i].duration,
        forall|i: int|
            0 <= i < enriched.len() ==> (#[trigger] enriched[i]).same_frame(base_events[i])
                && members(enriched[i].data) == enriched_data(
                base_events[i],
                subwatcher_events@,
                texts(keys@),
                base_wins(conflict@),
            ),
        subwatcher_events.len() == 0 || keys@.len() == 0 ==> enriched@ == base_events@,
{
    let ghost names = texts(keys@);
    let ghost keep_spec = base_wins(conflict@);
    if subwatcher_events.len() == 0 || keys.len() == 0 {
        proof {
            assert forall|i: int| 0 <= i < base_events.len() implies members(
                (#[trigger] base_events[i]).data,
            ) == enriched_data(base_events[i], subwatcher_events@, names, keep_spec) by {
                no_keys_no_change(base_events[i], subwatcher_events@, names, keep_spec);
            }
        }
        return base_events;
    }
    let keep = same_text(conflict, "base_wins");
    let order = order_range(&subwatcher_events, 0, subwatcher_events.len());
    let mut enriched: Vec<Event> = Vec::new();
    let mut i: usize = 0;
    while i < base_events.len()
        invariant
            i <= base_events.len(),
            enriched.len() == i,
            names == texts(keys@),
            keep == keep_spec,
            orders(subwatcher_events@, order@, 0, subwatcher_events.len() as int),
            ends_in_calendar(base_events@, subwatcher_events@),
            forall|k: int|
                0 <= k < i ==> (#[trigger] enriched[k]).same_frame(base_events[k]) && members(
                    enriched[k].data,
                ) == enriched_data(base_events[k], subwatcher_events@, names, keep_spec),
        decreases base_events.len() - i,
    {
        let base = &base_events[i];
        assert(in_calendar(base_events[i as int].end()));
        let found = find_match(base, &subwatcher_events, &order);
        let mut event = base.clone();
        if let Some(j) = found {
            let sub = &subwatcher_events[j];
            copy_fields(&mut event.data, &sub.data, keys, keep);
            proof {
                match_is_unique(
                    *base,
                    subwatcher_events@,
                    j as int,
                    match_of(*base, subwatcher_events@)->0,
                );
            }
        } else {
            assert(match_of(*base, subwatcher_events@) is None);
        }
        enriched.push(event);
        i = i + 1;
    }
    enriched
}

proof fn no_keys_no_change(base: Event, subs: Seq<Event>, keys: Seq<Seq<char>>, keep: bool)
    requires
        subs.len() == 0 || keys.len() == 0,
    ensures
        enriched_data(base, subs, keys, keep) == members(base.data),
{
    if let Some(i) = match_of(base, subs) {
        assert(with_fields(members(base.data), members(subs[i].data), keys, keep) =~= members(
            base.data,
        ));
    }
}

/// The events among the first `n` that overlap `base` have one that outranks the
/// others.
proof fn match_exists_up_to(base: Event, subs: Seq<Event>, n: int) -> (best: int)
    requires
        0 <= n <= subs.len(),
        exists|j: int| 0 <= j < n && overlap_ns(base, #[trigger] subs[j]) > 0,
    ensures
        0 <= best < n,
        overlap_ns(base, subs[best]) > 0,
        forall|j: int| 0 <= j < n && j != best ==> #[trigger] outranks(base, subs, best, j),
    decreases n,
{
    let last = n - 1;
    if exists|j: int| 0 <= j < last && overlap_ns(base, #[trigger] subs[j]) > 0 {
        let best = match_exists_up_to(base, subs, last);
        if outranks(base, subs, best, last) {
            best
        } else {
            assert forall|j: int| 0 <= j < n && j != last implies #[trigger] outranks(
                base,
                subs,
                last,
                j,
            ) by {
                assert(j == best || outranks(base, subs, best, j));
            }
            last
        }
    } else {
        last
    }
}

/// An event has a match exactly if some subwatcher event overlaps it.
pub proof fn overlap_gives_match(base: Event, subs: Seq<Event>)
    ensures
        match_of(base, subs) is Some <==> exists|j: int|
            0 <= j < subs.len() && overlap_ns(base, #[trigger] subs[j]) > 0,
{
    if exists|j: int| 0 <= j < subs.len() && overlap_ns(base, #[trigger] subs[j]) > 0 {
        let j = choose|j: int|
            0 <= j < subs.len() && overlap_ns(base, #[trigger] subs[j]) > 0;
        let best = match_exists_up_to(base, subs, subs.len() as int);
        assert(is_match(base, subs, best));
    }
    if let Some(i) = match_of(base, subs) {
        assert(overlap_ns(base, subs[i]) > 0);
    }
}

/// No event overlaps longer than the match.
pub proof fn match_overlaps_longest(base: Event, subs: Seq<Event>, j: int)
    requires
        match_of(base, subs) is Some,
        0 <= j < subs.len(),
    ensures
        0 <= match_of(base, subs)->0 < subs.len(),
        overlap_ns(base, subs[j]) <= overlap_ns(base, subs[match_of(base, subs)->0]),
{
    let i = match_of(base, subs)->0;
    assert(is_match(base, subs, i));
    if j != i {
        assert(outranks(base, subs, i, j));
    }
}

/// A subwatcher event that overlaps longer than every other is the match.
pub proof fn longest_is_match(base: Event, subs: Seq<Event>, i: int)
    requires
        0 <= i < subs.len(),
        overlap_ns(base, subs[i]) > 0,
        forall|j: int|
            0 <= j < subs.len() && j != i ==> overlap_ns(base, #[trigger] subs[j])
                < overlap_ns(base, subs[i]),
    ensures
        match_of(base, subs) == Some(i),
{
    assert forall|j: int| 0 <= j < subs.len() && j != i implies #[trigger] outranks(
        base,
        subs,
        i,
        j,
    ) by {
        assert(overlap_ns(base, subs[j]) < overlap_ns(base, subs[i]));
    }
    assert(is_match(base, subs, i));
    match_is_unique(base, subs, i, match_of(base, subs)->0);
}

/// Outside leap seconds, the overlap is what lies between the later start and the
/// earlier end.
pub proof fn overlap_is_intersection(base: Event, sub: Event)
    requires
        0 <= base.timestamp@.nanos < 1_000_000_000,
        0 <= sub.timestamp@.nanos < 1_000_000_000,
    ensures
        ({
            let base_end = base.timestamp.ns() + base.duration.ns();
            let sub_end = sub.timestamp.ns() + sub.duration.ns();
            let start = if base.timestamp.ns() < sub.timestamp.ns() {
                sub.timestamp.ns()
            } else {
                base.timestamp.ns()
            };
            let end = if sub_end < base_end {
                sub_end
            } else {
                base_end
            };
            &&& overlap_ns(base, sub) > 0 <==> end > start
            &&& end > start ==> overlap_ns(base, sub) == end - start
        }),
{
}

/// An event that no subwatcher event overlaps keeps its data.
pub proof fn no_overlap_no_change(
    base: Event,
    subs: Seq<Event>,
    keys: Seq<Seq<char>>,
    keep: bool,
)
    requires
        forall|j: int| 0 <= j < subs.len() ==> overlap_ns(base, #[trigger] subs[j]) <= 0,
    ensures
        enriched_data(base, subs, keys, keep) == members(base.data),
{
    overlap_gives_match(base, subs);
}

/// Under `"base_wins"` enrichment only adds: every field of the base event is
/// still there, with its value.
pub proof fn base_wins_only_adds(
    base: Event,
    subs: Seq<Event>,
    keys: Seq<Seq<char>>,
    k: Seq<char>,
)
    requires
        members(base.data).contains_key(k),
    ensures
        enriched_data(base, subs, keys, true).contains_key(k),
        enriched_data(base, subs, keys, true)[k] == members(base.data)[k],
{
}

/// Under `"sub_wins"` every named field that the match has is its value.
pub proof fn sub_wins_overwrites(
    base: Event,
    subs: Seq<Event>,
    keys: Seq<Seq<char>>,
    k: Seq<char>,
)
    requires
        match_of(base, subs) is Some,
        keys.contains(k),
        members(subs[match_of(base, subs)->0].data).contains_key(k),
    ensures
        enriched_data(base, subs, keys, false).contains_key(k),
        enriched_data(base, subs, keys, false)[k] == members(
            subs[match_of(base, subs)->0].data,
        )[k],
{
}

/// A field whose key is not named is there exactly if the base event has it, and
/// with its value.
pub proof fn other_fields_stay(
    base: Event,
    subs: Seq<Event>,
    keys: Seq<Seq<char>>,
    keep: bool,
    k: Seq<char>,
)
    requires
        !keys.contains(k),
    ensures
        enriched_data(base, subs, keys, keep).contains_key(k) <==> members(
            base.data,
        ).contains_key(k),
        members(base.data).contains_key(k) ==> enriched_data(base, subs, keys, keep)[k]
            == members(base.data)[k],
{
}

/// A named field that the base event lacks comes from the match, if that has
/// it, and from nowhere else.
pub proof fn added_fields_come_from_match(
    base: Event,
    subs: Seq<Event>,
    keys: Seq<Seq<char>>,
    keep: bool,
    k: Seq<char>,
)
    requires
        !members(base.data).contains_key(k),
    ensures
        enriched_data(base, subs, keys, keep).contains_key(k) <==> {
            &&& keys.contains(k)
            &&& match_of(base, subs) is Some
            &&& members(subs[match_of(base, subs)->0].data).contains_key(k)
        },
        enriched_data(base, subs, keys, keep).contains_key(k) ==> enriched_data(
            base,
            subs,
            keys,
            keep,
        )[k] == members(subs[match_of(base, subs)->0].data)[k],
{
}

/// Enriching an enriched event again changes nothing.
pub proof fn enrichment_is_idempotent(
    base: Event,
    once: Event,
    subs: Seq<Event>,
    keys: Seq<Seq<char>>,
    keep: bool,
)
    requires
        once.same_frame(base),
        members(once.data) == enriched_data(base, subs, keys, keep),
    ensures
        enriched_data(once, subs, keys, keep) == members(once.data),
{
    assert forall|i: int| is_match(once, subs, i) <==> is_match(base, subs, i) by {
        if is_match(once, subs, i) {
            assert forall|j: int| 0 <= j < subs.len() && j != i implies #[trigger] outranks(
                base,
                subs,
                i,
                j,
            ) by {
                assert(outranks(once, subs, i, j));
            }
        }
        if is_match(base, subs, i) {
            assert forall|j: int| 0 <= j < subs.len() && j != i implies #[trigger] outranks(
                once,
                subs,
                i,
                j,
            ) by {
                assert(outranks(base, subs, i, j));
            }
        }
    }
    if match_of(base, subs) is Some {
        let i = match_of(base, subs)->0;
        assert(is_match(once, subs, i));
        match_is_unique(once, subs, i, match_of(once, subs)->0);
        assert(enriched_data(once, subs, keys, keep) =~= members(once.data));
    }
}

/// The match overlaps, and no other event overlaps longer. Of those that overlap as
/// long, none starts before it, and of those that start with it, it is the first in
/// the list.
pub proof fn match_comes_first(base: Event, subs: Seq<Event>, j: int)
    requires
        match_of(base, subs) is Some,
        0 <= j < subs.len(),
    ensures
        ({
            let i = match_of(base, subs)->0;
            let (mine, other) = (overlap_ns(base, subs[i]), overlap_ns(base, subs[j]));
            let (at, from) = (subs[i].timestamp@, subs[j].timestamp@);
            &&& 0 <= i < subs.len()
            &&& mine > 0
            &&& other <= mine
            &&& other == mine ==> !(from.secs < at.secs)
            &&& other == mine && from.secs == at.secs ==> !(from.nanos < at.nanos)
            &&& other == mine && from == at ==> i <= j
        }),
{
    let i = match_of(base, subs)->0;
    assert(is_match(base, subs, i));
    if i != j {
        assert(outranks(base, subs, i, j));
    }
}

/// The overlap of two events is what lies between the later start and the earlier
/// end. There is none where one event has ended when the other starts.
pub proof fn overlap_is_from_later_start_to_earlier_end(
    base: Event,
    sub: Event,
    start: Instant,
    end: Instant,
)
    requires
        start == base.timestamp@ || start == sub.timestamp@,
        !start.before(base.timestamp@) && !start.before(sub.timestamp@),
        end == base.timestamp@.later(base.duration.ns()) || end == sub.timestamp@.later(
            sub.duration.ns(),
        ),
        !base.timestamp@.later(base.duration.ns()).before(end),
        !sub.timestamp@.later(sub.duration.ns()).before(end),
    ensures
        ({
            let base_end = base.timestamp@.later(base.duration.ns());
            let sub_end = sub.timestamp@.later(sub.duration.ns());
            if base.timestamp@.before(sub_end) && sub.timestamp@.before(base_end) {
                overlap_ns(base, sub) == end.since(start)
            } else {
                overlap_ns(base, sub) <= 0
            }
        }),
        overlap_ns(base, sub) == overlap_ns(sub, base),
{
}

/// A field that the base event has and its match has not stays with its value,
/// whichever of the two wins; so does every field where there is no match.
pub proof fn fields_that_match_lacks_stay(
    base: Event,
    subs: Seq<Event>,
    keys: Seq<Seq<char>>,
    keep: bool,
    k: Seq<char>,
)
    requires
        members(base.data).contains_key(k),
        match_of(base, subs) matches Some(i) ==> !members(subs[i].data).contains_key(k),
    ensures
        enriched_data(base, subs, keys, keep).contains_key(k),
        enriched_data(base, subs, keys, keep)[k] == members(base.data)[k],
{
}

/// Every field of an enriched event is the one of the base event or the one of its
/// match, and of no other event; only a named field is the one of the match. No field
/// of the base event is lost.
pub proof fn fields_come_from_base_or_match(
    base: Event,
    subs: Seq<Event>,
    keys: Seq<Seq<char>>,
    keep: bool,
    k: Seq<char>,
)
    ensures
        ({
            let own = members(base.data);
            let enriched = enriched_data(base, subs, keys, keep);
            &&& own.contains_key(k) ==> enriched.contains_key(k)
            &&& enriched.contains_key(k) ==> {
                ||| own.contains_key(k) && enriched[k] == own[k]
                ||| match_of(base, subs) matches Some(i) && keys.contains(k) && members(
                    subs[i].data,
                ).contains_key(k) && enriched[k] == members(subs[i].data)[k]
            }
        }),
{
}

/// The events that are not the match have no say: two lists that lead to matches with
/// the same data, or to none, enrich alike.
pub proof fn only_match_has_a_say(
    base: Event,
    subs: Seq<Event>,
    others: Seq<Event>,
    keys: Seq<Seq<char>>,
    keep: bool,
)
    requires
        match (match_of(base, subs), match_of(base, others)) {
            (Some(i), Some(j)) => members(subs[i].data) == members(others[j].data),
            (None, None) => true,
            _ => false,
        },
    ensures
        enriched_data(base, subs, keys, keep) == enriched_data(base, others, keys, keep),
{
}

/// Under the one rule the base event keeps its fields, and under no other.
pub proof fn base_wins_under_its_rule_alone(conflict: Seq<char>)
    ensures
        base_wins(conflict) <==> conflict == "base_wins"@,
        !base_wins("sub_wins"@),
{
    reveal_strlit("base_wins");
    reveal_strlit("sub_wins");
    assert("base_wins"@.len() != "sub_wins"@.len());
}

} // verus!
