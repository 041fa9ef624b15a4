//! Timers, and the collection that orders them by the instant they expire at.

use crate::effect::Effect;
use crate::event_loop::LoopHandle;
use crate::event_loop::RequestView;
use crate::resource::{
    CallbackId, Downcast, Resource, ResourceKind, ResourceView, SharedId,
};
use std::collections::BTreeMap;
use vstd::prelude::*;
use vstd::std_specs::cmp::OrdSpec;
use vstd::std_specs::iter::IteratorSpec;

verus! {

broadcast use {vstd::std_specs::btree::group_btree_axioms, vstd::laws_cmp::group_laws_cmp};

/// A point in time or a span of time, in nanoseconds. Points count from an
/// origin that the driver of the loop picks.
pub type Nanos = u128;

/// The longest span of time there is: a duration of `u64::MAX` whole seconds and
/// a second's worth of nanoseconds less one. Points in time lie within it too.
pub const MAX_SPAN: Nanos = 18_446_744_073_709_551_615_999_999_999;

/// Timers grouped by the instant they expire at. `T` tells them apart.
pub struct TimersCollection<T> {
    tree: BTreeMap<Nanos, Vec<T>>,
}

/// `at` is the earliest instant that has timers.
pub open spec fn is_earliest<T>(timers: Map<Nanos, Seq<T>>, at: Nanos) -> bool {
    &&& timers.contains_key(at)
    &&& forall|other: Nanos| #[trigger] timers.contains_key(other) ==> at <= other
}

/// The timers of every instant before `limit`, the earliest instant first and
/// each instant's timers in the order they were added.
pub open spec fn expired_before<T>(timers: Map<Nanos, Seq<T>>, limit: Nanos) -> Seq<T>
    decreases timers.dom().len(),
    when timers.dom().finite()
{
    if exists|at: Nanos| #[trigger] is_earliest(timers, at) && at < limit {
        let at = choose|at: Nanos| #[trigger] is_earliest(timers, at) && at < limit;
        timers[at] + expired_before(timers.remove(at), limit)
    } else {
        Seq::empty()
    }
}

/// The timers of every instant at or after `limit`.
pub open spec fn pending_from<T>(timers: Map<Nanos, Seq<T>>, limit: Nanos) -> Map<Nanos, Seq<T>> {
    timers.restrict(Set::new(|at: Nanos| at >= limit))
}

/// The timers of one more entry `id` that expires at `at`.
pub open spec fn scheduled<T>(timers: Map<Nanos, Seq<T>>, at: Nanos, id: T) -> Map<Nanos, Seq<T>> {
    if timers.contains_key(at) {
        timers.insert(at, timers[at].push(id))
    } else {
        timers.insert(at, seq![id])
    }
}

/// The timers other than `id`. No instant is left without timers.
pub open spec fn unscheduled<T>(timers: Map<Nanos, Seq<T>>, id: T) -> Map<Nanos, Seq<T>> {
    Map::new(
        |at: Nanos| timers.contains_key(at) && all_but(timers[at], id).len() > 0,
        |at: Nanos| all_but(timers[at], id),
    )
}

/// What a list holds besides `id`.
pub open spec fn all_but<T>(list: Seq<T>, id: T) -> Seq<T> {
    list.filter(|other: T| other != id)
}

/// What is left of a list was in it, and is another.
pub(crate) proof fn lemma_all_but<T>(list: Seq<T>, id: T, i: int)
    requires
        0 <= i < all_but(list, id).len(),
    ensures
        all_but(list, id)[i] != id,
        list.contains(all_but(list, id)[i]),
    decreases list.len(),
{
    reveal(Seq::filter);
    if list.len() > 0 {
        let shorter = list.drop_last();
        if i < all_but(shorter, id).len() {
            lemma_all_but(shorter, id, i);
            let k = choose|k: int|
                0 <= k < shorter.len() && shorter[k] == all_but(shorter, id)[i];
            assert(list[k] == all_but(list, id)[i]);
        } else {
            assert(list[list.len() - 1] == all_but(list, id)[i]);
        }
    }
}

/// What is not taken out of a list is left of it.
pub(crate) proof fn lemma_kept_by_all_but<T>(list: Seq<T>, id: T, other: T)
    requires
        list.contains(other),
        other != id,
    ensures
        all_but(list, id).contains(other),
    decreases list.len(),
{
    reveal(Seq::filter);
    let less = list.drop_last();
    let left = all_but(list, id);
    if list.last() == other {
        assert(left[left.len() - 1] == other);
    } else {
        let i = choose|i: int| 0 <= i < list.len() && list[i] == other;
        assert(less[i] == other);
        lemma_kept_by_all_but(less, id, other);
        let k = choose|k: int| 0 <= k < all_but(less, id).len() && all_but(less, id)[k] == other;
        assert(left[k] == other);
    }
}

/// A timer is scheduled at some instant.
pub open spec fn is_scheduled<T>(timers: Map<Nanos, Seq<T>>, id: T) -> bool {
    exists|at: Nanos| #[trigger] timers.contains_key(at) && timers[at].contains(id)
}

/// The entry number `i` of the instant `at` is that of `id`.
pub open spec fn is_entry<T>(timers: Map<Nanos, Seq<T>>, at: Nanos, i: int, id: T) -> bool {
    timers.contains_key(at) && 0 <= i < timers[at].len() && timers[at][i] == id
}

/// A timer has no more than one entry.
pub open spec fn is_alone<T>(timers: Map<Nanos, Seq<T>>, id: T) -> bool {
    forall|a: Nanos, i: int, b: Nanos, j: int|
        #![trigger is_entry(timers, a, i, id), is_entry(timers, b, j, id)]
        is_entry(timers, a, i, id) && is_entry(timers, b, j, id) ==> a == b && i == j
}

/// Something occurs in a list no more than once.
pub open spec fn at_most_once<T>(list: Seq<T>, item: T) -> bool {
    forall|i: int, j: int|
        0 <= i < list.len() && 0 <= j < list.len() && #[trigger] list[i] == item
            && #[trigger] list[j] == item ==> i == j
}

impl<T> TimersCollection<T> {
    pub closed spec fn view(&self) -> Map<Nanos, Seq<T>> {
        self.tree@.map_values(|ids: Vec<T>| ids@)
    }

    /// Creates an empty collection to track timers.
    pub fn new() -> (timers: Self)
        ensures
            timers@ == Map::<Nanos, Seq<T>>::empty(),
    {
        let timers = TimersCollection { tree: BTreeMap::new() };
        assert(timers@ =~= Map::empty());
        timers
    }

    pub fn insert(&mut self, timestamp: Nanos, id: T)
        ensures
            final(self)@ == scheduled(old(self)@, timestamp, id),
    {
        let mut ids = match self.tree.remove(&timestamp) {
            Some(ids) => ids,
            None => Vec::new(),
        };
        ids.push(id);
        self.tree.insert(timestamp, ids);
        assert(self@ =~= scheduled(old(self)@, timestamp, id));
    }

    pub fn next(&self) -> (first: Option<(Nanos, &Vec<T>)>)
        ensures
            self@.dom().finite(),
            match first {
                Some((at, ids)) => is_earliest(self@, at) && ids@ == self@[at],
                None => self@.dom().is_empty(),
            },
    {
        let entries = self.tree.iter();
        let ghost all = entries.remaining();
        let ghost keys = all.map_values(|kv: (&Nanos, &Vec<T>)| *kv.0);
        assert(self@.dom() =~= self.tree@.dom());
        for entry in it: entries
            invariant
                it.seq() == all,
                it.index() == 0,
                self@.dom().finite(),
                keys == all.map_values(|kv: (&Nanos, &Vec<T>)| *kv.0),
                vstd::std_specs::btree::increasing_seq(keys),
                all == vstd::std_specs::btree::spec_btree_map_iter(&self.tree).remaining(),
        {
            let (at, ids) = entry;
            proof {
                assert(self.tree@.contains_key(*all[0].0));
                assert forall|other: Nanos| #[trigger] self@.contains_key(other) implies *at
                    <= other by {
                    assert(self.tree@.contains_key(other));
                    let i = choose|i: int|
                        0 <= i < all.len() && all[i] == (&other, &self.tree@[other]);
                    assert(keys[i] == other);
                    assert(keys[0] == *at);
                    assert(i > 0 ==> OrdSpec::cmp_spec(&keys[0], &keys[i]) is Less);
                }
            }
            return Some((*at, ids));
        }
        assert(self@.dom() =~= Set::empty());
        None
    }

    pub fn split_expired_timers(&mut self, timestamp: Nanos) -> (expired: Vec<T>)
        ensures
            old(self)@.dom().finite(),
            final(self)@.dom().finite(),
            expired@ == expired_before(old(self)@, timestamp),
            final(self)@ == pending_from(old(self)@, timestamp),
    {
        let mut expired: Vec<T> = Vec::new();
        assert(self.tree@.dom().finite());
        assert(self@.dom() =~= self.tree@.dom());
        loop
            invariant
                expired@ + expired_before(self@, timestamp)
                    == expired_before(old(self)@, timestamp),
                pending_from(self@, timestamp) == pending_from(old(self)@, timestamp),
                self@.dom().finite(),
            ensures
                expired@ == expired_before(old(self)@, timestamp),
                self@ == pending_from(old(self)@, timestamp),
                self@.dom().finite(),
            decreases self@.dom().len(),
        {
            let at = match self.next() {
                Some((at, _)) => at,
                None => {
                    break ;
                },
            };
            if at >= timestamp {
                break ;
            }
            let ghost before = self@;
            match self.tree.remove(&at) {
                Some(mut ids) => {
                    expired.append(&mut ids);
                },
                None => {},
            }
            assert(self@ =~= before.remove(at));
        }
        expired
    }
}

impl TimersCollection<u32> {
    /// Takes out a timer, whatever instants it is scheduled at.
    pub fn remove(&mut self, id: u32)
        ensures
            final(self)@ == unscheduled(old(self)@, id),
    {
        let mut kept: BTreeMap<Nanos, Vec<u32>> = BTreeMap::new();
        let entries = self.tree.iter();
        let ghost all = entries.remaining();
        for entry in it: entries
            invariant
                it.seq() == all,
                all == vstd::std_specs::btree::spec_btree_map_iter(&self.tree).remaining(),
                forall|at: Nanos| #[trigger]
                    kept@.contains_key(at) ==> self.tree@.contains_key(at) && kept@[at]@
                        == all_but(self.tree@[at]@, id) && kept@[at]@.len() > 0,
                forall|j: int|
                    0 <= j < it.index() && all_but((*(#[trigger] all[j]).1)@, id).len() > 0
                        ==> kept@.contains_key(*all[j].0),
        {
            let (at, ids) = entry;
            let others = Self::others(ids, id);
            assert(self.tree@.contains_key(*at) && self.tree@[*at] == *ids);
            if others.len() > 0 {
                kept.insert(*at, others);
            }
        }
        let ghost before = self.tree@;
        self.tree = kept;
        proof {
            assert forall|at: Nanos| #[trigger] before.contains_key(at) && all_but(
                before[at]@,
                id,
            ).len() > 0 implies kept@.contains_key(at) by {
                let i = choose|i: int| 0 <= i < all.len() && all[i] == (&at, &before[at]);
                assert(all_but((*all[i].1)@, id).len() > 0);
            }
            assert(self@ =~= unscheduled(old(self)@, id));
        }
    }

    /// Returns what a list holds besides `id`.
    fn others(ids: &Vec<u32>, id: u32) -> (others: Vec<u32>)
        ensures
            others@ == all_but(ids@, id),
    {
        let mut others: Vec<u32> = Vec::new();
        for i in 0..ids.len()
            invariant
                others@ == all_but(ids@.take(i as int), id),
        {
            let other = ids[i];
            proof {
                reveal(Seq::filter);
                assert(ids@.take(i + 1).drop_last() =~= ids@.take(i as int));
                assert(ids@.take(i + 1).last() == other);
            }
            if other != id {
                others.push(other);
            }
        }
        assert(ids@.take(ids@.len() as int) =~= ids@);
        others
    }
}

/// Among the instants up to one that has timers, one is the earliest.
pub proof fn earliest_exists<T>(timers: Map<Nanos, Seq<T>>, time: Nanos)
    requires
        timers.contains_key(time),
    ensures
        exists|at: Nanos| #[trigger] is_earliest(timers, at) && at <= time,
    decreases time,
{
    if !is_earliest(timers, time) {
        let earlier = choose|earlier: Nanos| #[trigger]
            timers.contains_key(earlier) && earlier < time;
        earliest_exists(timers, earlier);
    }
}

/// No timer expires early: all that have expired are scheduled at an instant that
/// has passed.
pub proof fn no_timer_expires_early<T>(timers: Map<Nanos, Seq<T>>, now: Nanos, i: int)
    requires
        timers.dom().finite(),
        0 <= i < expired_before(timers, now).len(),
    ensures
        exists|at: Nanos| #[trigger]
            timers.contains_key(at) && at < now && timers[at].contains(
                expired_before(timers, now)[i],
            ),
    decreases timers.dom().len(),
{
    let at = choose|at: Nanos| #[trigger] is_earliest(timers, at) && at < now;
    let rest = timers.remove(at);
    assert(expired_before(timers, now) == timers[at] + expired_before(rest, now));
    if i < timers[at].len() {
        assert(timers[at].contains(timers[at][i]));
    } else {
        let j = i - timers[at].len();
        no_timer_expires_early(rest, now, j);
        let other = choose|other: Nanos| #[trigger]
            rest.contains_key(other) && other < now && rest[other].contains(
                expired_before(rest, now)[j],
            );
        assert(timers.contains_key(other));
    }
}

/// Every timer that is scheduled at an instant that has passed has expired,
/// however many share the instant.
pub proof fn passed_timer_expires<T>(timers: Map<Nanos, Seq<T>>, now: Nanos, at: Nanos, id: T)
    requires
        timers.dom().finite(),
        timers.contains_key(at),
        at < now,
        timers[at].contains(id),
    ensures
        expired_before(timers, now).contains(id),
    decreases timers.dom().len(),
{
    earliest_exists(timers, at);
    let first = choose|first: Nanos| #[trigger] is_earliest(timers, first) && first < now;
    let rest = timers.remove(first);
    let all = timers[first] + expired_before(rest, now);
    assert(expired_before(timers, now) == all);
    if at == first {
        let i = choose|i: int| 0 <= i < timers[first].len() && timers[first][i] == id;
        assert(all[i] == id);
    } else {
        passed_timer_expires(rest, now, at, id);
        let later = expired_before(rest, now);
        let i = choose|i: int| 0 <= i < later.len() && later[i] == id;
        assert(all[timers[first].len() + i] == id);
    }
}

/// Timers expire in the order of their instants: what has expired by an earlier
/// time comes before the rest of what has expired by a later time.
pub proof fn timers_expire_in_order<T>(timers: Map<Nanos, Seq<T>>, earlier: Nanos, later: Nanos)
    requires
        timers.dom().finite(),
        earlier <= later,
    ensures
        expired_before(timers, earlier).is_prefix_of(expired_before(timers, later)),
    decreases timers.dom().len(),
{
    if exists|at: Nanos| #[trigger] is_earliest(timers, at) && at < earlier {
        let at = choose|at: Nanos| #[trigger] is_earliest(timers, at) && at < earlier;
        let same = choose|same: Nanos| #[trigger] is_earliest(timers, same) && same < later;
        assert(at == same);
        let rest = timers.remove(at);
        timers_expire_in_order(rest, earlier, later);
        let short = expired_before(rest, earlier);
        let long = expired_before(rest, later);
        assert((timers[at] + long).take((timers[at] + short).len() as int) =~= timers[at]
            + long.take(short.len() as int));
        assert(long.take(short.len() as int) =~= short);
    } else {
        assert(expired_before(timers, later).take(0) =~= Seq::empty());
    }
}

/// A timer that is scheduled has expired or is still pending.
pub proof fn timer_is_expired_or_pending<T>(timers: Map<Nanos, Seq<T>>, limit: Nanos, id: T)
    requires
        timers.dom().finite(),
        is_scheduled(timers, id),
    ensures
        expired_before(timers, limit).contains(id) || is_scheduled(
            pending_from(timers, limit),
            id,
        ),
{
    let at = choose|at: Nanos| #[trigger] timers.contains_key(at) && timers[at].contains(id);
    if at >= limit {
        assert(pending_from(timers, limit).contains_key(at));
        assert(pending_from(timers, limit)[at] == timers[at]);
    } else {
        passed_timer_expires(timers, limit, at, id);
    }
}

/// A timer with no more than one entry expires no more than once, and is not
/// pending any longer once it has expired.
pub proof fn lone_timer_expires_once<T>(timers: Map<Nanos, Seq<T>>, limit: Nanos, id: T)
    requires
        timers.dom().finite(),
        is_alone(timers, id),
    ensures
        at_most_once(expired_before(timers, limit), id),
        is_alone(pending_from(timers, limit), id),
        expired_before(timers, limit).contains(id) ==> !is_scheduled(
            pending_from(timers, limit),
            id,
        ),
    decreases timers.dom().len(),
{
    let pending = pending_from(timers, limit);
    assert forall|a: Nanos, i: int| #[trigger] is_entry(pending, a, i, id) implies is_entry(
        timers,
        a,
        i,
        id,
    ) by {}
    if exists|at: Nanos| #[trigger] is_earliest(timers, at) && at < limit {
        let at = choose|at: Nanos| #[trigger] is_earliest(timers, at) && at < limit;
        let rest = timers.remove(at);
        assert forall|a: Nanos, i: int| #[trigger] is_entry(rest, a, i, id) implies is_entry(
            timers,
            a,
            i,
            id,
        ) && a != at by {}
        assert(is_alone(rest, id));
        lone_timer_expires_once(rest, limit, id);
        assert(pending_from(rest, limit) =~= pending);
        let later = expired_before(rest, limit);
        let all = timers[at] + later;
        assert(expired_before(timers, limit) == all);
        if timers[at].contains(id) {
            let k = choose|k: int| 0 <= k < timers[at].len() && timers[at][k] == id;
            assert(is_entry(timers, at, k, id));
            if later.contains(id) {
                let j = choose|j: int| 0 <= j < later.len() && later[j] == id;
                no_timer_expires_early(rest, limit, j);
                let b = choose|b: Nanos| #[trigger]
                    rest.contains_key(b) && b < limit && rest[b].contains(later[j]);
                let m = choose|m: int| 0 <= m < rest[b].len() && rest[b][m] == id;
                assert(is_entry(rest, b, m, id));
                assert(false);
            }
            assert forall|i: int| 0 <= i < all.len() && #[trigger] all[i] == id implies i == k by {
                if i < timers[at].len() {
                    assert(is_entry(timers, at, i, id));
                } else {
                    assert(later[i - timers[at].len()] == id);
                }
            }
            if is_scheduled(pending, id) {
                let b = choose|b: Nanos| #[trigger]
                    pending.contains_key(b) && pending[b].contains(id);
                let m = choose|m: int| 0 <= m < pending[b].len() && pending[b][m] == id;
                assert(is_entry(pending, b, m, id));
            }
        } else {
            assert forall|i: int| 0 <= i < all.len() && #[trigger] all[i] == id implies i
                >= timers[at].len() && later[i - timers[at].len()] == id by {
                if i < timers[at].len() {
                    assert(timers[at].contains(timers[at][i]));
                }
            }
            if all.contains(id) {
                let i = choose|i: int| 0 <= i < all.len() && all[i] == id;
                assert(later.contains(id));
            }
        }
    }
}

/// A new entry of a timer that had none is its only one, and leaves every other
/// timer with the entries it had.
pub proof fn schedule_adds_one_entry<T>(timers: Map<Nanos, Seq<T>>, at: Nanos, id: T)
    ensures
        is_scheduled(scheduled(timers, at, id), id),
        !is_scheduled(timers, id) ==> is_alone(scheduled(timers, at, id), id),
        forall|other: T| #[trigger]
            is_scheduled(timers, other) ==> is_scheduled(scheduled(timers, at, id), other),
        forall|other: T| #[trigger]
            is_scheduled(scheduled(timers, at, id), other) ==> is_scheduled(timers, other) || other
                == id,
        forall|other: T| #[trigger]
            is_alone(timers, other) && other != id ==> is_alone(scheduled(timers, at, id), other),
        timers.dom().finite() ==> scheduled(timers, at, id).dom().finite(),
{
    let after = scheduled(timers, at, id);
    assert(after.contains_key(at) && after[at][after[at].len() - 1] == id);
    assert(after[at].contains(id));
    assert forall|other: T| #[trigger] is_scheduled(timers, other) implies is_scheduled(
        after,
        other,
    ) by {
        let time = choose|time: Nanos| #[trigger]
            timers.contains_key(time) && timers[time].contains(other);
        let i = choose|i: int| 0 <= i < timers[time].len() && timers[time][i] == other;
        assert(after.contains_key(time) && after[time][i] == other);
    }
    assert forall|a: Nanos, i: int, other: T| #[trigger] is_entry(after, a, i, other) implies (
    other == id && a == at && i == after[at].len() - 1) || is_entry(timers, a, i, other) by {}
    assert forall|a: Nanos, i: int, other: T| #[trigger] is_entry(timers, a, i, other) implies
        is_scheduled(timers, other) by {
        assert(timers[a].contains(other));
    }
    assert forall|other: T| #[trigger] is_scheduled(after, other) implies is_scheduled(
        timers,
        other,
    ) || other == id by {
        let time = choose|time: Nanos| #[trigger]
            after.contains_key(time) && after[time].contains(other);
        let i = choose|i: int| 0 <= i < after[time].len() && after[time][i] == other;
        assert(is_entry(after, time, i, other));
    }
}

/// What is left of two lists is left of each.
proof fn lemma_all_but_concat<T>(first: Seq<T>, second: Seq<T>, id: T)
    ensures
        all_but(first + second, id) == all_but(first, id) + all_but(second, id),
    decreases second.len(),
{
    reveal(Seq::filter);
    if second.len() == 0 {
        assert(first + second =~= first);
        assert(all_but(first, id) + Seq::<T>::empty() =~= all_but(first, id));
    } else {
        assert((first + second).drop_last() =~= first + second.drop_last());
        lemma_all_but_concat(first, second.drop_last(), id);
        assert(all_but(first + second, id) =~= all_but(first, id) + all_but(second, id));
    }
}

/// Taking out a timer takes it out of what expires and of what is pending, and
/// changes nothing else of them.
pub proof fn unscheduled_timer_does_not_expire<T>(
    timers: Map<Nanos, Seq<T>>,
    limit: Nanos,
    id: T,
)
    requires
        timers.dom().finite(),
    ensures
        expired_before(unscheduled(timers, id), limit) == all_but(
            expired_before(timers, limit),
            id,
        ),
        pending_from(unscheduled(timers, id), limit) == unscheduled(
            pending_from(timers, limit),
            id,
        ),
        unscheduled(timers, id).dom().finite(),
    decreases timers.dom().len(),
{
    let others = unscheduled(timers, id);
    assert(others.dom() =~= timers.dom().intersect(others.dom()));
    assert(pending_from(others, limit) =~= unscheduled(pending_from(timers, limit), id));
    if exists|at: Nanos| #[trigger] is_earliest(timers, at) && at < limit {
        let at = choose|at: Nanos| #[trigger] is_earliest(timers, at) && at < limit;
        let rest = timers.remove(at);
        unscheduled_timer_does_not_expire(rest, limit, id);
        lemma_all_but_concat(timers[at], expired_before(rest, limit), id);
        if all_but(timers[at], id).len() == 0 {
            assert(others =~= unscheduled(rest, id));
            assert(all_but(timers[at], id) + all_but(expired_before(rest, limit), id) =~= all_but(
                expired_before(rest, limit),
                id,
            ));
        } else {
            assert(others.remove(at) =~= unscheduled(rest, id));
            assert(is_earliest(others, at));
            let first = choose|first: Nanos| #[trigger] is_earliest(others, first) && first < limit;
            assert(first == at);
        }
    } else {
        if exists|at: Nanos| #[trigger] is_earliest(others, at) && at < limit {
            let at = choose|at: Nanos| #[trigger] is_earliest(others, at) && at < limit;
            assert(timers.contains_key(at));
            earliest_exists(timers, at);
        }
        reveal(Seq::filter);
    }
}

/// Taking out a timer and scheduling another may be done in either order.
pub proof fn unscheduling_spares_another<T>(
    timers: Map<Nanos, Seq<T>>,
    at: Nanos,
    other: T,
    id: T,
)
    requires
        other != id,
    ensures
        unscheduled(scheduled(timers, at, other), id) == scheduled(
            unscheduled(timers, id),
            at,
            other,
        ),
{
    reveal(Seq::filter);
    let list = if timers.contains_key(at) {
        timers[at]
    } else {
        Seq::empty()
    };
    assert(list.push(other).drop_last() =~= list);
    assert(seq![other] =~= Seq::empty().push(other));
    assert(all_but(list.push(other), id) =~= all_but(list, id).push(other));
    let one = unscheduled(scheduled(timers, at, other), id);
    let two = scheduled(unscheduled(timers, id), at, other);
    assert(scheduled(timers, at, other)[at] =~= list.push(other));
    assert(one.contains_key(at) && one[at] == all_but(list, id).push(other));
    assert(two[at] =~= all_but(list, id).push(other)) by {
        if all_but(list, id).len() == 0 {
            assert(all_but(list, id) =~= Seq::empty());
        }
    }
    assert(one =~= two);
}

/// Scheduling a timer and taking it out again leaves what was scheduled besides
/// it.
pub proof fn schedule_is_undone<T>(timers: Map<Nanos, Seq<T>>, at: Nanos, id: T)
    ensures
        unscheduled(scheduled(timers, at, id), id) == unscheduled(timers, id),
{
    reveal(Seq::filter);
    let list = if timers.contains_key(at) {
        timers[at]
    } else {
        Seq::empty()
    };
    assert(list.push(id).drop_last() =~= list);
    assert(scheduled(timers, at, id)[at] =~= list.push(id));
    assert(all_but(list.push(id), id) == all_but(list, id));
    assert(unscheduled(scheduled(timers, at, id), id) =~= unscheduled(timers, id));
}

/// Taking out a timer that is not scheduled changes nothing, as long as no instant
/// is without timers.
pub proof fn absent_timer_is_not_missed<T>(timers: Map<Nanos, Seq<T>>, id: T)
    requires
        !is_scheduled(timers, id),
        forall|at: Nanos| #[trigger] timers.contains_key(at) ==> timers[at].len() > 0,
    ensures
        unscheduled(timers, id) == timers,
{
    assert forall|at: Nanos| #[trigger] timers.contains_key(at) implies all_but(timers[at], id)
        == timers[at] by {
        assert(!timers[at].contains(id));
        lemma_all_others(timers[at], id);
    }
    assert(unscheduled(timers, id) =~= timers);
}

/// All of a list is left without what it does not hold.
proof fn lemma_all_others<T>(list: Seq<T>, id: T)
    requires
        !list.contains(id),
    ensures
        all_but(list, id) == list,
    decreases list.len(),
{
    reveal(Seq::filter);
    if list.len() > 0 {
        let less = list.drop_last();
        assert(list[list.len() - 1] != id);
        assert(!less.contains(id)) by {
            if less.contains(id) {
                let i = choose|i: int| 0 <= i < less.len() && less[i] == id;
                assert(list[i] == id);
            }
        }
        lemma_all_others(less, id);
        assert(less.push(list.last()) =~= list);
    }
}

/// Defines the style of the timer.
#[derive(Debug, Clone, Copy, PartialEq, Eq, Structural)]
pub enum TimerKind {
    /// Runs once.
    Timeout,
    /// Runs over and over.
    Interval,
}

/// The data required for a timer resource.
#[derive(Debug, Clone, Copy, PartialEq, Eq, Structural)]
pub struct Timer {
    pub id: SharedId,
    pub delay: Nanos,
    pub callback: CallbackId,
    pub kind: TimerKind,
}

impl Timer {
    /// Returns a handle to the timer resource.
    pub fn handle(&self) -> (handle: TimerHandle)
        ensures
            handle.id == self.id,
    {
        TimerHandle { id: self.id }
    }

    /// Runs the callback of the timer.
    pub fn run_callback(&self) -> (effect: Effect)
        ensures
            effect == Effect::TimerCallback(self.callback),
    {
        Effect::TimerCallback(self.callback)
    }
}

impl Downcast for Timer {
    open spec fn of_kind() -> ResourceKind {
        ResourceKind::Timer
    }

    open spec fn as_resource(&self) -> ResourceView {
        ResourceView::Timer(*self)
    }

    fn downcast_ref(resource: &Resource) -> (inner: Option<&Self>) {
        match resource {
            Resource::Timer(timer) => Some(timer),
            _ => None,
        }
    }

    fn downcast_mut(resource: &mut Resource) -> (inner: Option<&mut Self>) {
        match resource {
            Resource::Timer(timer) => Some(timer),
            _ => None,
        }
    }
}

/// A reference like struct to an active timer.
#[derive(Debug, Clone, Copy, PartialEq, Eq, Structural)]
pub struct TimerHandle {
    /// A shared reference to the timer.
    pub id: SharedId,
}

impl TimerHandle {
    /// Cancels the scheduled timer.
    pub fn cancel(self, handle: &mut LoopHandle)
        ensures
            final(handle)@ == old(handle)@.queued(RequestView::TimerCancel(self.id)),
            old(handle)@.used(final(handle)@),
    {
        handle.cancel_timer(self.id);
    }
}

/// What has expired by an instant grows, with the next, by exactly the timers of the
/// instant, behind the others and in the order in which they were added. Nothing
/// has expired at the start of time.
pub proof fn expiry_grows_by_instants<T>(timers: Map<Nanos, Seq<T>>, limit: Nanos)
    requires
        timers.dom().finite(),
        limit < Nanos::MAX,
    ensures
        expired_before(timers, 0) == Seq::<T>::empty(),
        timers.contains_key(limit) ==> expired_before(timers, (limit + 1) as Nanos)
            == expired_before(timers, limit) + timers[limit],
        !timers.contains_key(limit) ==> expired_before(timers, (limit + 1) as Nanos)
            == expired_before(timers, limit),
    decreases timers.dom().len(),
{
    let next = (limit + 1) as Nanos;
    if exists|at: Nanos| #[trigger] is_earliest(timers, at) && at < limit {
        let at = choose|at: Nanos| #[trigger] is_earliest(timers, at) && at < limit;
        let same = choose|same: Nanos| #[trigger] is_earliest(timers, same) && same < next;
        assert(at == same);
        let rest = timers.remove(at);
        expiry_grows_by_instants(rest, limit);
        if timers.contains_key(limit) {
            assert(rest.contains_key(limit) && rest[limit] == timers[limit]);
            assert(timers[at] + (expired_before(rest, limit) + timers[limit]) =~= (timers[at]
                + expired_before(rest, limit)) + timers[limit]);
        }
    } else if timers.contains_key(limit) {
        earliest_exists(timers, limit);
        let first = choose|first: Nanos| #[trigger] is_earliest(timers, first) && first <= limit;
        assert(first == limit);
        assert(is_earliest(timers, limit) && limit < next);
        let same = choose|same: Nanos| #[trigger] is_earliest(timers, same) && same < next;
        assert(same == limit);
        let rest = timers.remove(limit);
        if exists|at: Nanos| #[trigger] is_earliest(rest, at) && at < next {
            let at = choose|at: Nanos| #[trigger] is_earliest(rest, at) && at < next;
            assert(timers.contains_key(at));
        }
        assert(expired_before(rest, next) == Seq::<T>::empty());
        assert(expired_before(timers, next) == timers[limit] + expired_before(rest, next));
        assert(timers[limit] + Seq::<T>::empty() =~= Seq::<T>::empty() + timers[limit]);
    } else {
        if exists|at: Nanos| #[trigger] is_earliest(timers, at) && at < next {
            let at = choose|at: Nanos| #[trigger] is_earliest(timers, at) && at < next;
            assert(at == limit);
        }
    }
}

/// What is pending from an instant on is what is scheduled at that instant or
/// later, as it is.
pub proof fn pending_timers_are_the_later_ones<T>(
    timers: Map<Nanos, Seq<T>>,
    limit: Nanos,
    at: Nanos,
)
    ensures
        pending_from(timers, limit).contains_key(at) <==> timers.contains_key(at) && at >= limit,
        timers.contains_key(at) && at >= limit ==> pending_from(timers, limit)[at] == timers[at],
{
}

/// A timer that is scheduled goes behind those of its instant, and no other instant
/// changes.
pub proof fn scheduled_timer_comes_last<T>(
    timers: Map<Nanos, Seq<T>>,
    at: Nanos,
    id: T,
    other: Nanos,
)
    ensures
        ({
            let after = scheduled(timers, at, id);
            &&& after.contains_key(at)
            &&& timers.contains_key(at) ==> after[at] == timers[at] + seq![id]
            &&& !timers.contains_key(at) ==> after[at] == seq![id]
            &&& other != at ==> (after.contains_key(other) <==> timers.contains_key(other))
            &&& other != at && timers.contains_key(other) ==> after[other] == timers[other]
        }),
{
    if timers.contains_key(at) {
        assert(timers[at].push(id) =~= timers[at] + seq![id]);
    }
}

/// Taking out a timer takes out all its entries and no other: what else is
/// scheduled at an instant stays, in its order.
pub proof fn unscheduling_takes_out_one_timer<T>(
    timers: Map<Nanos, Seq<T>>,
    id: T,
    list: Seq<T>,
    other: T,
)
    ensures
        !is_scheduled(unscheduled(timers, id), id),
        all_but(Seq::<T>::empty(), id) == Seq::<T>::empty(),
        all_but(list.push(id), id) == all_but(list, id),
        other != id ==> all_but(list.push(other), id) == all_but(list, id).push(other),
        forall|at: Nanos| #[trigger]
            unscheduled(timers, id).contains_key(at) <==> timers.contains_key(at) && all_but(
                timers[at],
                id,
            ) != Seq::<T>::empty(),
        forall|at: Nanos| #[trigger]
            unscheduled(timers, id).contains_key(at) ==> unscheduled(timers, id)[at] == all_but(
                timers[at],
                id,
            ),
{
    reveal(Seq::filter);
    assert(list.push(id).drop_last() =~= list);
    assert(list.push(other).drop_last() =~= list);
    if is_scheduled(unscheduled(timers, id), id) {
        let after = unscheduled(timers, id);
        let at = choose|at: Nanos| #[trigger] after.contains_key(at) && after[at].contains(id);
        let i = choose|i: int| 0 <= i < after[at].len() && after[at][i] == id;
        lemma_all_but(timers[at], id, i);
    }
    assert forall|at: Nanos| #[trigger]
        unscheduled(timers, id).contains_key(at) <==> timers.contains_key(at) && all_but(
            timers[at],
            id,
        ) != Seq::<T>::empty() by {
        if all_but(timers[at], id).len() == 0 {
            assert(all_but(timers[at], id) =~= Seq::<T>::empty());
        }
    }
}

} // verus!
