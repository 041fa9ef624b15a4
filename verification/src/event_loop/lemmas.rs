//! Every step of the loop keeps what holds of it at all times.

use crate::event_loop::state::{listening, LoopState};
use crate::event_loop::{HandleView, RequestView};
use crate::resource::{
    issued_sound, keys_sound, ResourceId, ResourceKind, ResourceView, SharedId,
};
use crate::signals::{
    listens, persistent, signaled_all, unlistened, without, Handlers, Signal,
};
use crate::tcp_stream::StreamView;
use crate::timers::{
    at_most_once, expired_before, is_alone, is_scheduled, lone_timer_expires_once, pending_from,
    schedule_adds_one_entry, timer_is_expired_or_pending, Nanos, Timer, TimerKind, MAX_SPAN,
};
use vstd::prelude::*;

verus! {

/// Taking a request off the queue leaves a sound loop, which may serve the
/// request if it can.
pub(crate) proof fn lemma_received(state: LoopState)
    requires
        state.wf(),
        state.handle.requests.len() > 0,
        state.servable(state.handle.requests[0]),
    ensures
        state.received().wf(),
        state.received().admits(state.handle.requests[0]),
{
    let after = state.received();
    let requests = state.handle.requests;
    assert(forall|i: int| 0 <= i < after.handle.requests.len()
        ==> #[trigger] after.handle.requests[i] == requests[i + 1]);
    assert(after.references_sound());
    lemma_same_resources(state, after);
    let request = requests[0];
    if request.starts() is Some {
        assert(state.unlinked(request.starts()->0));
        assert(after.unlinked(request.starts()->0));
        assert(after.fresh(request.starts()->0));
    }
}

/// Loops with the same resources, timers and queues are alike in the parts of
/// soundness that speak of these.
proof fn lemma_same_resources(state: LoopState, after: LoopState)
    requires
        state.resources == after.resources,
        state.issued == after.issued,
        state.links == after.links,
        state.timers == after.timers,
        state.check_queue == after.check_queue,
        state.close_queue == after.close_queue,
    ensures
        state.account_sound() ==> after.account_sound(),
        state.links_sound() ==> after.links_sound(),
        state.timers_sound() ==> after.timers_sound(),
        state.checks_sound() ==> after.checks_sound(),
        state.closes_sound() ==> after.closes_sound(),
        forall|id: ResourceId, kind: ResourceKind| #[trigger]
            after.holds(id, kind) == state.holds(id, kind),
{
    assert forall|id: ResourceId, kind: ResourceKind| #[trigger] after.holds(id, kind)
        == state.holds(id, kind) by {}
}

/// Loops whose close queues hold the same, of which one holds under the
/// identifiers in it nothing that the other does not hold, have sound close queues
/// alike.
proof fn lemma_same_closes(state: LoopState, after: LoopState)
    requires
        state.closes_sound(),
        state.close_queue == after.close_queue,
        state.issued.subset_of(after.issued),
        after.keys_unique() ==> state.keys_unique(),
        after.keys_unique() ==> forall|i: int|
            0 <= i < state.close_queue.len() && after.resources.contains_key(
                #[trigger] state.close_queue[i],
            ) ==> state.resources.contains_key(state.close_queue[i])
                && state.resources[state.close_queue[i]].kind()
                == after.resources[state.close_queue[i]].kind(),
    ensures
        after.closes_sound(),
{
}

/// What is neither a stream nor a listener does not wait to be closed.
pub(crate) proof fn lemma_not_closing(state: LoopState, id: ResourceId)
    requires
        state.closes_sound(),
        state.keys_unique(),
        state.resources.contains_key(id),
        !state.holds(id, ResourceKind::TcpStream),
        !state.holds(id, ResourceKind::TcpListener),
    ensures
        forall|i: int| 0 <= i < state.close_queue.len() ==> #[trigger] state.close_queue[i] != id,
{
}

/// Loops whose check queues hold the same, of which one holds under the
/// identifiers in it nothing that the other does not hold, have sound check queues
/// alike.
proof fn lemma_same_checks(state: LoopState, after: LoopState)
    requires
        state.checks_sound(),
        state.check_queue == after.check_queue,
        state.issued.subset_of(after.issued),
        after.keys_unique() ==> state.keys_unique(),
        forall|id: ResourceId| #[trigger]
            after.holds(id, ResourceKind::Check) ==> state.holds(id, ResourceKind::Check),
        after.keys_unique() ==> forall|i: int|
            0 <= i < state.check_queue.len() && after.resources.contains_key(
                #[trigger] state.check_queue[i],
            ) ==> state.resources.contains_key(state.check_queue[i])
                && state.resources[state.check_queue[i]].kind()
                == after.resources[state.check_queue[i]].kind(),
    ensures
        after.checks_sound(),
{
}

/// Loops with the same schedule, of which one holds no timer that the other does
/// not hold, have sound timers alike.
proof fn lemma_same_timers(state: LoopState, after: LoopState)
    requires
        state.timers_sound(),
        state.timers == after.timers,
        after.keys_unique() ==> state.keys_unique(),
        forall|id: ResourceId| #[trigger]
            after.holds(id, ResourceKind::Timer) ==> state.holds(id, ResourceKind::Timer),
    ensures
        after.timers_sound(),
{
}

/// Loops at the same time, of which one holds no timer that the other does not
/// hold, and which have the same requests, reach as far in time.
proof fn lemma_same_times(state: LoopState, after: LoopState)
    requires
        state.times_sound(),
        state.now == after.now,
        state.handle.requests == after.handle.requests,
        forall|id: ResourceId| #[trigger]
            after.holds(id, ResourceKind::Timer) ==> state.holds(id, ResourceKind::Timer)
                && after.resources[id] == state.resources[id],
    ensures
        after.times_sound(),
{
    assert forall|id: ResourceId| after.holds(id, ResourceKind::Timer) implies (
    #[trigger] after.resources[id])->Timer_0.delay <= MAX_SPAN by {
        assert(state.holds(id, ResourceKind::Timer));
        assert(state.resources[id] == after.resources[id]);
    }
}

/// References that wait to be linked stay unlinked where only fresh ones are
/// linked.
proof fn lemma_still_unlinked(state: LoopState, after: LoopState)
    requires
        state.references_sound(),
        state.handle.requests == after.handle.requests,
        state.accepted == after.accepted,
        forall|shared: SharedId| #[trigger]
            state.unlinked(shared) && !state.fresh(shared) ==> after.unlinked(shared),
    ensures
        forall|i: int|
            0 <= i < after.handle.requests.len() && (
            #[trigger] after.handle.requests[i]).starts() is Some ==> after.unlinked(
                after.handle.requests[i].starts()->0,
            ),
        forall|i: int|
            0 <= i < after.accepted.len() ==> after.unlinked((#[trigger] after.accepted[i]).id),
{
    assert forall|i: int|
        0 <= i < after.handle.requests.len() && (
        #[trigger] after.handle.requests[i]).starts() is Some implies after.unlinked(
        after.handle.requests[i].starts()->0,
    ) by {
        assert(state.unlinked(state.handle.requests[i].starts()->0));
    }
    assert forall|i: int| 0 <= i < after.accepted.len() implies after.unlinked(
        (#[trigger] after.accepted[i]).id,
    ) by {
        assert(state.unlinked(state.accepted[i].id));
    }
}

/// A resource that joins the loop keeps the parts of soundness that do not
/// speak of one kind of resource.
proof fn lemma_joined(state: LoopState, id: ResourceId, resource: ResourceView)
    requires
        state.wf(),
        state.available(id),
        state.fresh(resource.shared_id()),
    ensures
        ({
            let after = state.joined(id, resource);
            &&& keys_sound(after.resources)
            &&& after.account_sound()
            &&& after.keys_unique() ==> state.keys_unique()
            &&& after.links_sound()
            &&& after.references_sound()
            &&& after.closes_sound()
            &&& resource.kind() != ResourceKind::Timer
                ==> after.times_sound() && after.timers_sound()
            &&& resource.kind() != ResourceKind::Check ==> after.checks_sound()
        }),
{
    let after = state.joined(id, resource);
    assert(after.links_sound()) by {
        assert forall|other: ResourceId| #[trigger] after.resources.contains_key(other)
            implies after.links.contains_key(
            after.resources[other].shared_id(),
        ) && after.links[after.resources[other].shared_id()] == other by {
            if other != id {
                assert(state.resources.contains_key(other));
            }
        }
    }
    assert(after.references_sound()) by {
        lemma_still_unlinked(state, after);
    }
    if resource.kind() != ResourceKind::Check {
        lemma_same_checks(state, after);
    }
    if resource.kind() != ResourceKind::Timer {
        lemma_same_timers(state, after);
        lemma_same_times(state, after);
    }
    lemma_same_closes(state, after);
}

/// A resource that leaves the loop keeps it sound.
pub(crate) proof fn lemma_left(state: LoopState, id: ResourceId)
    requires
        state.wf(),
        state.resources.contains_key(id),
    ensures
        state.left(id).wf(),
{
    lemma_left_parts(state, id);
    let after = state.left(id);
    lemma_same_timers(state, after);
    lemma_same_checks(state, after);
    lemma_same_closes(state, after);
}

/// A resource that leaves the loop keeps the parts of soundness that speak of
/// no queue of resources.
proof fn lemma_left_parts(state: LoopState, id: ResourceId)
    requires
        keys_sound(state.resources),
        state.account_sound(),
        state.links_sound(),
        state.references_sound(),
        state.times_sound(),
        state.resources.contains_key(id),
    ensures
        ({
            let after = state.left(id);
            &&& keys_sound(after.resources)
            &&& after.account_sound()
            &&& after.links_sound()
            &&& after.references_sound()
            &&& after.times_sound()
        }),
{
    let after = state.left(id);
    assert(after.links_sound()) by {
        assert forall|other: ResourceId| #[trigger] after.resources.contains_key(other)
            implies after.links.contains_key(
            after.resources[other].shared_id(),
        ) && after.links[after.resources[other].shared_id()] == other by {
            assert(state.resources.contains_key(other));
        }
        assert forall|other: SharedId| #[trigger] after.links.contains_key(other)
            implies after.resources.contains_key(after.links[other])
            && after.resources[after.links[other]].shared_id() == other by {
            assert(state.links.contains_key(other));
        }
    }
    assert(after.references_sound()) by {
        assert forall|other: SharedId| #[trigger] after.links.contains_key(other)
            implies other < after.handle.next_id by {
            assert(state.links.contains_key(other));
        }
        lemma_still_unlinked(state, after);
    }
    assert(after.account_sound()) by {
        assert forall|other: ResourceId| #[trigger] after.resources.contains_key(other)
            implies after.issued.contains(other) by {
            assert(state.resources.contains_key(other));
        }
    }
    lemma_same_times(state, after);
}

/// A resource other than a timer may change, but for its kind and reference.
pub(crate) proof fn lemma_changed(state: LoopState, id: ResourceId, resource: ResourceView)
    requires
        state.wf(),
        state.resources.contains_key(id),
        resource.kind() == state.resources[id].kind(),
        resource.shared_id() == state.resources[id].shared_id(),
        resource.kind() == ResourceKind::Timer ==> resource == state.resources[id],
    ensures
        state.changed(id, resource).wf(),
{
    let after = state.changed(id, resource);
    assert(after.resources.dom() =~= state.resources.dom());
    assert forall|other: ResourceId, kind: ResourceKind| #[trigger] after.holds(other, kind)
        <==> state.holds(other, kind) by {}
    assert(after.links_sound()) by {
        assert forall|other: ResourceId| #[trigger] after.resources.contains_key(other)
            implies after.links.contains_key(
            after.resources[other].shared_id(),
        ) && after.links[after.resources[other].shared_id()] == other by {
            assert(state.resources.contains_key(other));
        }
    }
    assert(after.references_sound()) by {
        lemma_still_unlinked(state, after);
    }
    assert forall|other: ResourceId|
        after.holds(other, ResourceKind::Timer) implies (
        #[trigger] after.resources[other])->Timer_0.delay <= MAX_SPAN by {
        assert(state.holds(other, ResourceKind::Timer));
        assert(state.resources[other] == after.resources[other]);
    }
    lemma_same_checks(state, after);
    lemma_same_closes(state, after);
}

/// Dropping a resource keeps the loop sound.
proof fn lemma_discarded(state: LoopState, id: ResourceId)
    requires
        state.wf(),
    ensures
        state.discarded(id).0.wf(),
{
    if state.resources.contains_key(id) {
        lemma_left(state, id);
    }
}

/// Removing a check resource and its place in the queue keeps the loop sound.
proof fn lemma_check_removed(state: LoopState, shared: SharedId)
    requires
        state.wf(),
    ensures
        state.served(RequestView::CheckRemove(shared), 0).0.wf(),
{
    let id = state.id_of(shared);
    let rest = state.dropped(shared).0;
    let after = state.served(RequestView::CheckRemove(shared), 0).0;
    let keep = |other: ResourceId| other != id;
    if state.resources.contains_key(id) {
        lemma_left(state, id);
    }
    lemma_same_references(rest, after);
    lemma_same_times(rest, after);
    lemma_same_timers(rest, after);
    lemma_same_closes(rest, after);
    assert(after.links_sound()) by {
        assert(rest.links_sound());
    }
    assert(after.account_sound()) by {
        assert(rest.account_sound());
    }
    lemma_filtered_queue(state.check_queue, keep);
    if after.keys_unique() {
        lemma_filter_distinct(state.check_queue, keep);
    }
    assert(after.checks_sound()) by {
        assert forall|other: ResourceId| #[trigger] after.holds(other, ResourceKind::Check)
            implies after.check_queue.contains(other) by {
            assert(rest.holds(other, ResourceKind::Check));
            assert(other != id);
        }
        assert forall|i: int| 0 <= i < after.check_queue.len() implies exists|j: int|
            0 <= j < state.check_queue.len() && state.check_queue[j]
                == #[trigger] after.check_queue[i] by {
            lemma_filter_origin(state.check_queue, keep, i);
        }
    }
}

/// A filter keeps whatever is to be kept.
proof fn lemma_filtered_queue(queue: Seq<ResourceId>, keep: spec_fn(ResourceId) -> bool)
    ensures
        forall|id: ResourceId|
            queue.contains(id) && keep(id) ==> #[trigger] queue.filter(keep).contains(id),
{
    broadcast use vstd::seq_lib::group_filter_ensures;

    assert forall|id: ResourceId| queue.contains(id) && keep(id) implies #[trigger] queue.filter(
        keep,
    ).contains(id) by {
        let i = choose|i: int| 0 <= i < queue.len() && queue[i] == id;
        assert(keep(queue[i]));
        assert(queue.filter(keep).contains(queue[i]));
    }
}

/// A filter adds nothing.
pub(crate) proof fn lemma_filter_origin<A>(items: Seq<A>, keep: spec_fn(A) -> bool, i: int)
    requires
        0 <= i < items.filter(keep).len(),
    ensures
        items.contains(items.filter(keep)[i]),
        keep(items.filter(keep)[i]),
    decreases items.len(),
{
    reveal(Seq::filter);
    if items.len() > 0 {
        let rest = items.drop_last();
        if i < rest.filter(keep).len() {
            lemma_filter_origin(rest, keep, i);
            let j = choose|j: int| 0 <= j < rest.len() && rest[j] == rest.filter(keep)[i];
            assert(items[j] == rest[j]);
        } else {
            assert(items[items.len() - 1] == items.last());
        }
    }
}

/// A sequence without duplicates stays so under a filter.
proof fn lemma_filter_distinct<A>(items: Seq<A>, keep: spec_fn(A) -> bool)
    requires
        items.no_duplicates(),
    ensures
        items.filter(keep).no_duplicates(),
    decreases items.len(),
{
    reveal(Seq::filter);
    if items.len() > 0 {
        let rest = items.drop_last();
        lemma_filter_distinct(rest, keep);
        if keep(items.last()) {
            assert forall|i: int| 0 <= i < rest.filter(keep).len()
                implies rest.filter(keep)[i] != items.last() by {
                lemma_filter_origin(rest, keep, i);
                let j = choose|j: int| 0 <= j < rest.len() && rest[j] == rest.filter(keep)[i];
                assert(items[j] == rest[j]);
            }
        }
    }
}

/// Loops with the same references are alike in the part of soundness that
/// speaks of these.
proof fn lemma_same_references(state: LoopState, after: LoopState)
    requires
        state.references_sound(),
        state.links == after.links,
        state.signals == after.signals,
        state.handle == after.handle,
        state.accepted == after.accepted,
    ensures
        after.references_sound(),
{
    lemma_still_unlinked(state, after);
}

/// A list in place of another that holds no other references gives no reference
/// to two things.
proof fn lemma_sublist(state: LoopState, number: i32, list: Seq<Signal>)
    requires
        state.references_sound(),
        forall|i: int|
            0 <= i < list.len() ==> listens(state.signals, number, (#[trigger] list[i]).id),
    ensures
        (LoopState { signals: state.signals.insert(number, list), ..state }).references_sound(),
{
    let after = LoopState { signals: state.signals.insert(number, list), ..state };
    assert forall|other: i32, id: u64| #[trigger] listens(after.signals, other, id)
        implies listens(state.signals, other, id) by {
        let i = choose|i: int| 0 <= i < after.signals[other].len()
            && (#[trigger] after.signals[other][i]).id == id;
        if other == number {
            assert(listens(state.signals, number, list[i].id));
        } else {
            assert(state.signals[other][i].id == id);
        }
    }
    lemma_fewer_listeners(state, after);
}

/// Fewer listeners give no reference to two things.
proof fn lemma_fewer_listeners(state: LoopState, after: LoopState)
    requires
        state.references_sound(),
        after.links == state.links,
        after.handle == state.handle,
        after.accepted == state.accepted,
        forall|number: i32, id: u64| #[trigger]
            listens(after.signals, number, id) ==> listens(state.signals, number, id),
    ensures
        after.references_sound(),
{
    lemma_still_unlinked(state, after);
}

/// A change of the listeners alone keeps the loop sound if it keeps the
/// references so.
proof fn lemma_signals_changed(state: LoopState, after: LoopState)
    requires
        state.wf(),
        after == (LoopState { signals: after.signals, ..state }),
        after.references_sound(),
    ensures
        after.wf(),
{
    lemma_same_resources(state, after);
    assert(after.times_sound());
}

/// A new listener keeps the loop sound.
proof fn lemma_listening(state: LoopState, number: i32, signal: Signal)
    requires
        state.wf(),
        state.fresh(signal.id),
    ensures
        (LoopState { signals: listening(state.signals, number, signal), ..state }).wf(),
{
    let after = LoopState { signals: listening(state.signals, number, signal), ..state };
    assert forall|other: i32, id: u64| #[trigger] listens(after.signals, other, id)
        implies listens(state.signals, other, id) || (other == number && id == signal.id) by {
        let i = choose|i: int| 0 <= i < after.signals[other].len()
            && (#[trigger] after.signals[other][i]).id == id;
        if other == number {
            let before = if state.signals.contains_key(number) {
                state.signals[number]
            } else {
                Seq::empty()
            };
            if i < before.len() {
                assert(state.signals[number][i].id == id);
            }
        } else {
            assert(state.signals[other][i].id == id);
        }
    }
    lemma_still_unlinked(state, after);
    lemma_signals_changed(state, after);
}

/// Removing a listener keeps the loop sound.
proof fn lemma_unlistened(state: LoopState, id: u64)
    requires
        state.wf(),
    ensures
        (LoopState { signals: unlistened(state.signals, id).0, ..state }).wf(),
{
    let after = LoopState { signals: unlistened(state.signals, id).0, ..state };
    if exists|number: i32| listens(state.signals, number, id) {
        let number = choose|number: i32| listens(state.signals, number, id);
        let list = without(state.signals[number], id);
        lemma_kept_listeners(state.signals, number, |signal: Signal| signal.id != id);
        lemma_sublist(state, number, list);
    }
    lemma_signals_changed(state, after);
}

/// The listeners that a filter keeps were there before.
proof fn lemma_kept_listeners(handlers: Handlers, number: i32, keep: spec_fn(Signal) -> bool)
    requires
        handlers.contains_key(number),
    ensures
        forall|i: int|
            0 <= i < handlers[number].filter(keep).len() ==> listens(
                handlers,
                number,
                (#[trigger] handlers[number].filter(keep)[i]).id,
            ),
{
    let list = handlers[number];
    assert forall|i: int| 0 <= i < list.filter(keep).len()
        implies listens(handlers, number, (#[trigger] list.filter(keep)[i]).id) by {
        lemma_filter_origin(list, keep, i);
        let j = choose|j: int| 0 <= j < list.len() && list[j] == list.filter(keep)[i];
        assert(handlers[number][j].id == list.filter(keep)[i].id);
    }
}

/// Running the listeners of pending signals keeps the loop sound.
pub(crate) proof fn lemma_signaled_all(state: LoopState, numbers: Seq<i32>)
    requires
        state.wf(),
    ensures
        (LoopState { signals: signaled_all(state.signals, numbers).0, ..state }).wf(),
    decreases numbers.len(),
{
    if numbers.len() > 0 {
        lemma_signaled_all(state, numbers.drop_last());
        let before = LoopState {
            signals: signaled_all(state.signals, numbers.drop_last()).0,
            ..state
        };
        let after = LoopState { signals: signaled_all(state.signals, numbers).0, ..state };
        let number = numbers.last();
        if before.signals.contains_key(number) && before.signals[number].len() > 0 {
            lemma_kept_listeners(before.signals, number, |signal: Signal|
                signal.lifetime == crate::signals::Lifetime::Persistent);
            lemma_sublist(before, number, persistent(before.signals[number]));
        }
        lemma_signals_changed(before, after);
    }
}

/// A timer that joins the loop and is scheduled keeps it sound.
proof fn lemma_timer_started(state: LoopState, id: ResourceId, timer: Timer)
    requires
        state.wf(),
        state.available(id),
        state.fresh(timer.id),
        timer.delay <= MAX_SPAN,
    ensures
        state.served(RequestView::TimerStart(timer), id).0.wf(),
{
    let resource = ResourceView::Timer(timer);
    let joined = state.joined(id, resource);
    let after = state.served(RequestView::TimerStart(timer), id).0;
    lemma_joined(state, id, resource);
    schedule_adds_one_entry(state.timers, (state.now + timer.delay) as u128, id);
    lemma_same_references(joined, after);
    assert(after.links_sound());
    lemma_same_closes(joined, after);
    lemma_same_checks(joined, after);
    assert(after.times_sound()) by {
        assert forall|other: ResourceId|
            after.holds(other, ResourceKind::Timer) implies (
            #[trigger] after.resources[other])->Timer_0.delay <= MAX_SPAN by {
            if other != id {
                assert(state.holds(other, ResourceKind::Timer));
                assert(state.resources[other] == after.resources[other]);
            }
        }
    }
    assert(after.timers_sound()) by {
        assert(state.keys_unique() ==> !is_scheduled(state.timers, id));
        assert forall|other: ResourceId| #[trigger] after.holds(other, ResourceKind::Timer)
            implies is_scheduled(after.timers, other) && (after.keys_unique() ==> is_alone(
            after.timers,
            other,
        )) by {
            if other != id {
                assert(state.holds(other, ResourceKind::Timer));
            }
        }
    }
}

/// A check resource that joins the loop and its queue keeps it sound.
proof fn lemma_check_started(state: LoopState, id: ResourceId, check: crate::check::Check)
    requires
        state.wf(),
        state.available(id),
        state.fresh(check.id),
    ensures
        state.served(RequestView::CheckInit(check), id).0.wf(),
{
    let resource = ResourceView::Check(check);
    let joined = state.joined(id, resource);
    let after = state.served(RequestView::CheckInit(check), id).0;
    lemma_joined(state, id, resource);
    lemma_same_resources(LoopState { check_queue: after.check_queue, ..joined }, after);
    lemma_same_references(joined, after);
    lemma_same_closes(joined, after);
    lemma_same_times(joined, after);
    lemma_same_timers(joined, after);
    assert(after.checks_sound()) by {
        assert forall|other: ResourceId| #[trigger] after.holds(other, ResourceKind::Check)
            implies after.check_queue.contains(other) by {
            if other == id {
                assert(after.check_queue[state.check_queue.len() as int] == id);
            } else {
                assert(state.holds(other, ResourceKind::Check));
                let i = choose|i: int| 0 <= i < state.check_queue.len()
                    && state.check_queue[i] == other;
                assert(after.check_queue[i] == other);
            }
        }
        assert forall|i: int| 0 <= i < after.check_queue.len() implies after.issued.contains(
            #[trigger] after.check_queue[i],
        ) && (after.keys_unique() && after.resources.contains_key(after.check_queue[i])
            ==> after.holds(after.check_queue[i], ResourceKind::Check)) by {
            if i < state.check_queue.len() {
                assert(state.issued.contains(state.check_queue[i]));
            }
        }
        if after.keys_unique() {
            assert forall|i: int, j: int| 0 <= i < after.check_queue.len()
                && 0 <= j < after.check_queue.len() && i != j
                implies after.check_queue[i] != after.check_queue[j] by {
                if i < state.check_queue.len() {
                    assert(state.issued.contains(state.check_queue[i]));
                }
                if j < state.check_queue.len() {
                    assert(state.issued.contains(state.check_queue[j]));
                }
            }
        }
    }
}

/// Queueing a stream or listener for closing keeps the loop sound.
pub(crate) proof fn lemma_close_queued(state: LoopState, id: ResourceId)
    requires
        state.wf(),
        state.holds(id, ResourceKind::TcpStream) || state.holds(id, ResourceKind::TcpListener),
    ensures
        (LoopState { close_queue: state.close_queue.push(id), ..state }).wf(),
{
    let after = LoopState { close_queue: state.close_queue.push(id), ..state };
    lemma_same_references(state, after);
    lemma_same_checks(state, after);
    lemma_same_times(state, after);
    lemma_same_timers(state, after);
    assert(after.closes_sound()) by {
        assert forall|i: int| 0 <= i < after.close_queue.len() implies after.issued.contains(
            #[trigger] after.close_queue[i],
        ) && (after.keys_unique() && after.resources.contains_key(after.close_queue[i])
            ==> after.holds(after.close_queue[i], ResourceKind::TcpStream) || after.holds(
            after.close_queue[i],
            ResourceKind::TcpListener,
        )) by {
            if i < state.close_queue.len() {
                assert(state.issued.contains(state.close_queue[i]));
            }
        }
    }
}

/// Serving a request keeps the loop sound.
pub(crate) proof fn lemma_served(state: LoopState, request: RequestView, new: ResourceId)
    requires
        state.wf(),
        state.admits(request),
        request.resource() is Some ==> state.available(new),
    ensures
        state.served(request, new).0.wf(),
        state.served(request, new).0.handle == state.handle,
{
    let after = state.served(request, new).0;
    match request {
        RequestView::TimerStart(timer) => {
            lemma_timer_started(state, new, timer);
        },
        RequestView::TimerCancel(shared) => {
            lemma_discarded(state, state.id_of(shared));
        },
        RequestView::TcpInit(stream) => {
            lemma_joined(state, new, ResourceView::TcpStream(stream));
        },
        RequestView::TcpWrite(shared, data, callback) => {
            lemma_changed(state, state.id_of(shared), after.resources[state.id_of(shared)]);
        },
        RequestView::TcpRead(shared, callback) => {
            lemma_changed(state, state.id_of(shared), after.resources[state.id_of(shared)]);
        },
        RequestView::TcpShutdown(shared, callback) => {
            if state.resources.contains_key(state.id_of(shared)) {
                lemma_changed(state, state.id_of(shared), after.resources[state.id_of(shared)]);
            }
        },
        RequestView::TcpClose(shared, callback) => {
            let id = state.id_of(shared);
            lemma_changed(state, id, after.resources[id]);
            lemma_close_queued(state.changed(id, after.resources[id]), id);
        },
        RequestView::TcpListen(listener) => {
            lemma_joined(state, new, ResourceView::TcpListener(listener));
        },
        RequestView::TcpListenStop(shared, callback) => {
            let id = state.id_of(shared);
            lemma_changed(state, id, after.resources[id]);
            lemma_close_queued(state.changed(id, after.resources[id]), id);
        },
        RequestView::TaskSpawn(task, work) => {
            let resource = ResourceView::Task(task);
            lemma_joined(state, new, resource);
            lemma_same_resources(state.joined(new, resource), after);
            lemma_same_references(state.joined(new, resource), after);
        },
        RequestView::TaskCancel(shared) => {
            lemma_discarded(state, state.id_of(shared));
        },
        RequestView::CheckInit(check) => {
            lemma_check_started(state, new, check);
        },
        RequestView::CheckRemove(shared) => {
            lemma_check_removed(state, shared);
        },
        RequestView::FsEventStart(fs_event) => {
            lemma_joined(state, new, request.resource()->0);
        },
        RequestView::FsEventStop(shared) => {
            lemma_discarded(state, state.id_of(shared));
        },
        RequestView::FsWatcherStart(watcher) => {
            lemma_joined(state, new, request.resource()->0);
        },
        RequestView::FsWatcherStop(shared) => {
            lemma_discarded(state, state.id_of(shared));
        },
        RequestView::SignalStart(number, signal) => {
            lemma_listening(state, number, signal);
        },
        RequestView::SignalStop(id) => {
            lemma_unlistened(state, id);
        },
        RequestView::TtyReadStart(reader) => {
            let resource = ResourceView::TtyReader(reader);
            lemma_joined(state, new, resource);
            lemma_same_resources(state.joined(new, resource), after);
            lemma_same_references(state.joined(new, resource), after);
        },
        RequestView::TtyClose(tty) => {
            lemma_discarded(state, state.reader_of(tty));
        },
    }
}

/// A timer is scheduled or due, and only once.
spec fn awaited(state: LoopState, due: Seq<ResourceId>, id: ResourceId) -> bool {
    &&& is_scheduled(state.timers, id) || due.contains(id)
    &&& state.keys_unique() ==> {
        &&& is_alone(state.timers, id)
        &&& at_most_once(due, id)
        &&& !(is_scheduled(state.timers, id) && due.contains(id))
    }
}

/// A sound loop but for the timers in `due`, which need not be scheduled.
spec fn sound_but(state: LoopState, due: Seq<ResourceId>) -> bool {
    &&& keys_sound(state.resources)
    &&& state.account_sound()
    &&& state.links_sound()
    &&& state.references_sound()
    &&& state.times_sound()
    &&& state.timers.dom().finite()
    &&& forall|at: Nanos| #[trigger] state.timers.contains_key(at) ==> state.timers[at].len() > 0
    &&& forall|id: ResourceId| #[trigger]
        state.holds(id, ResourceKind::Timer) ==> awaited(state, due, id)
    &&& state.checks_sound()
    &&& state.closes_sound()
    &&& state.handle.queue_empty <==> state.handle.requests.len() == 0
}

/// The timers that expire are the ones that are not pending.
proof fn lemma_due(state: LoopState)
    requires
        state.wf(),
    ensures
        sound_but(
            LoopState { timers: pending_from(state.timers, state.now), ..state },
            expired_before(state.timers, state.now),
        ),
{
    let due = expired_before(state.timers, state.now);
    let after = LoopState { timers: pending_from(state.timers, state.now), ..state };
    lemma_same_references(state, after);
    lemma_same_closes(state, after);
    lemma_same_checks(state, after);
    lemma_same_times(state, after);
    assert(after.timers.dom().subset_of(state.timers.dom()));
    vstd::set_lib::lemma_len_subset(after.timers.dom(), state.timers.dom());
    assert forall|id: ResourceId| #[trigger] is_scheduled(after.timers, id) implies is_scheduled(
        state.timers,
        id,
    ) by {
        let at = choose|at: Nanos| #[trigger]
            after.timers.contains_key(at) && after.timers[at].contains(id);
        assert(state.timers.contains_key(at));
    }
    assert forall|id: ResourceId| #[trigger] after.holds(id, ResourceKind::Timer) implies awaited(
        after,
        due,
        id,
    ) by {
        assert(state.holds(id, ResourceKind::Timer));
        timer_is_expired_or_pending(state.timers, state.now, id);
        if state.keys_unique() {
            lone_timer_expires_once(state.timers, state.now, id);
        }
    }
}

/// One timer less is due.
proof fn lemma_fewer_due(due: Seq<ResourceId>, id: ResourceId, rest: Seq<ResourceId>)
    requires
        due == seq![id] + rest,
    ensures
        forall|other: ResourceId| #[trigger] rest.contains(other) ==> due.contains(other),
        forall|other: ResourceId| #[trigger]
            due.contains(other) && other != id ==> rest.contains(other),
        forall|other: ResourceId| #[trigger]
            at_most_once(due, other) ==> at_most_once(rest, other),
        at_most_once(due, id) ==> !rest.contains(id),
        due.contains(id),
{
    assert(due[0] == id);
    assert forall|i: int| 0 <= i < rest.len() implies #[trigger] rest[i] == due[i + 1] by {}
    assert forall|other: ResourceId| #[trigger] rest.contains(other) implies due.contains(
        other,
    ) by {
        let i = choose|i: int| 0 <= i < rest.len() && rest[i] == other;
        assert(due[i + 1] == other);
    }
    assert forall|other: ResourceId| #[trigger] due.contains(other) && other != id
        implies rest.contains(other) by {
        let i = choose|i: int| 0 <= i < due.len() && due[i] == other;
        assert(rest[i - 1] == other);
    }
    assert forall|other: ResourceId| #[trigger] at_most_once(due, other) implies at_most_once(
        rest,
        other,
    ) by {
        assert forall|i: int, j: int|
            0 <= i < rest.len() && 0 <= j < rest.len() && #[trigger] rest[i] == other
                && #[trigger] rest[j] == other implies i == j by {
            assert(due[i + 1] == other && due[j + 1] == other);
        }
    }
    if at_most_once(due, id) && rest.contains(id) {
        let i = choose|i: int| 0 <= i < rest.len() && rest[i] == id;
        assert(due[i + 1] == id);
    }
}

/// The expiry of one timer of those that are due.
proof fn lemma_fired(state: LoopState, id: ResourceId, rest: Seq<ResourceId>)
    requires
        sound_but(state, seq![id] + rest),
    ensures
        sound_but(state.fired(id).0, rest),
        state.fired(id).0.handle == state.handle,
        state.fired(id).0.now == state.now,
{
    let due = seq![id] + rest;
    let after = state.fired(id).0;
    lemma_fewer_due(due, id, rest);
    if !state.holds(id, ResourceKind::Timer) {
        assert forall|other: ResourceId| #[trigger] after.holds(other, ResourceKind::Timer)
            implies awaited(after, rest, other) by {
            assert(awaited(state, due, other));
        }
    } else {
        let timer = state.resources[id]->Timer_0;
        assert(awaited(state, due, id));
        match timer.kind {
            TimerKind::Interval => {
                schedule_adds_one_entry(state.timers, (state.now + timer.delay) as u128, id);
                lemma_same_references(state, after);
                lemma_same_closes(state, after);
                lemma_same_checks(state, after);
                lemma_same_times(state, after);
                assert forall|other: ResourceId| #[trigger] after.holds(other, ResourceKind::Timer)
                    implies awaited(after, rest, other) by {
                    assert(state.holds(other, ResourceKind::Timer));
                    assert(awaited(state, due, other));
                }
            },
            TimerKind::Timeout => {
                lemma_left_parts(state, id);
                lemma_same_closes(state, after);
                lemma_same_checks(state, after);
                assert forall|other: ResourceId| #[trigger] after.holds(other, ResourceKind::Timer)
                    implies awaited(after, rest, other) by {
                    assert(state.holds(other, ResourceKind::Timer));
                    assert(awaited(state, due, other));
                }
            },
        }
    }
}

/// The expiry of some of the timers that are due.
proof fn lemma_fired_some(state: LoopState, due: Seq<ResourceId>, count: int)
    requires
        sound_but(state, due),
        0 <= count <= due.len(),
    ensures
        sound_but(state.fired_all(due.take(count)).0, due.skip(count)),
        state.fired_all(due.take(count)).0.handle == state.handle,
        state.fired_all(due.take(count)).0.now == state.now,
    decreases count,
{
    if count == 0 {
        assert(due.skip(0) =~= due);
    } else {
        lemma_fired_some(state, due, count - 1);
        let before = state.fired_all(due.take(count - 1)).0;
        assert(due.take(count).drop_last() =~= due.take(count - 1));
        assert(due.skip(count - 1) =~= seq![due[count - 1]] + due.skip(count));
        lemma_fired(before, due[count - 1], due.skip(count));
    }
}

/// Running the expired timers keeps the loop sound, and every step of it is
/// within the end of time.
pub(crate) proof fn lemma_timers_run(state: LoopState)
    requires
        state.wf(),
    ensures
        ({
            let due = expired_before(state.timers, state.now);
            let start = LoopState { timers: pending_from(state.timers, state.now), ..state };
            &&& start.fired_all(due).0.wf()
            &&& start.fired_all(due).0.handle == state.handle
            &&& start.fired_all(due).0.now == state.now
            &&& forall|count: int|
                0 <= count <= due.len() ==> {
                    let step = (#[trigger] start.fired_all(due.take(count))).0;
                    &&& keys_sound(step.resources)
                    &&& issued_sound(step.issued)
                    &&& step.times_sound()
                    &&& step.now == state.now
                }
        }),
{
    let due = expired_before(state.timers, state.now);
    let start = LoopState { timers: pending_from(state.timers, state.now), ..state };
    lemma_due(state);
    assert forall|count: int| 0 <= count <= due.len() implies {
        let step = (#[trigger] start.fired_all(due.take(count))).0;
        &&& keys_sound(step.resources)
        &&& issued_sound(step.issued)
        &&& step.times_sound()
        &&& step.now == state.now
    } by {
        lemma_fired_some(start, due, count);
    }
    lemma_fired_some(start, due, due.len() as int);
    assert(due.take(due.len() as int) =~= due);
    let after = start.fired_all(due).0;
    assert(due.skip(due.len() as int) =~= Seq::empty());
    assert forall|id: ResourceId| #[trigger] after.holds(id, ResourceKind::Timer)
        implies is_scheduled(after.timers, id) && (after.keys_unique() ==> is_alone(
        after.timers,
        id,
    )) by {
        assert(awaited(after, Seq::empty(), id));
        assert(!Seq::<ResourceId>::empty().contains(id));
    }
}

/// Closing the resources in the close queue keeps the loop sound.
pub(crate) proof fn lemma_closed_all(state: LoopState, count: int)
    requires
        state.wf(),
        0 <= count <= state.close_queue.len(),
    ensures
        ({
            let start = LoopState { close_queue: Seq::empty(), ..state };
            let after = start.closed_all(state.close_queue.take(count)).0;
            &&& after.wf()
            &&& after.handle == state.handle
            &&& after.close_queue == Seq::<ResourceId>::empty()
            &&& forall|id: ResourceId| #[trigger]
                after.resources.contains_key(id) ==> state.resources.contains_key(id)
                    && after.resources[id] == state.resources[id]
        }),
    decreases count,
{
    let start = LoopState { close_queue: Seq::empty(), ..state };
    let ids = state.close_queue;
    if count == 0 {
        lemma_same_references(state, start);
        assert forall|id: ResourceId, kind: ResourceKind| #[trigger]
            start.holds(id, kind) == state.holds(id, kind) by {}
        assert(start.times_sound());
        assert(start.timers_sound());
        assert(start.checks_sound());
    } else {
        lemma_closed_all(state, count - 1);
        assert(ids.take(count).drop_last() =~= ids.take(count - 1));
        let before = start.closed_all(ids.take(count - 1)).0;
        let id = ids[count - 1];
        if before.resources.contains_key(id) {
            lemma_left(before, id);
        }
    }
}

/// A new connection among the accepted ones, with a reference made up for it,
/// keeps the loop sound.
pub(crate) proof fn lemma_accepted(state: LoopState, stream: StreamView)
    requires
        state.wf(),
        state.handle.next_id < u64::MAX,
        stream.id == state.handle.next_id,
    ensures
        (LoopState {
            accepted: state.accepted.push(stream),
            handle: state.handle.referenced(),
            ..state
        }).wf(),
{
    let after = LoopState {
        accepted: state.accepted.push(stream),
        handle: state.handle.referenced(),
        ..state
    };
    lemma_same_resources(state, after);
    assert(after.times_sound());
    assert forall|shared: SharedId| #[trigger] state.unlinked(shared)
        implies after.unlinked(shared) by {}
    assert(after.unlinked(stream.id)) by {
        assert(!state.links.contains_key(stream.id));
        assert forall|number: i32| !listens(after.signals, number, stream.id) by {
            assert(!listens(state.signals, number, stream.id));
        }
    }
    assert(after.references_sound()) by {
        assert forall|i: int|
            0 <= i < after.handle.requests.len() && (
            #[trigger] after.handle.requests[i]).starts() is Some implies after.unlinked(
            after.handle.requests[i].starts()->0,
        ) && after.handle.requests[i].starts() != Some(stream.id) by {
            assert(state.unlinked(state.handle.requests[i].starts()->0));
        }
        assert forall|i: int| 0 <= i < after.accepted.len() implies after.unlinked(
            (#[trigger] after.accepted[i]).id,
        ) by {
            if i < state.accepted.len() {
                assert(state.unlinked(state.accepted[i].id));
            }
        }
        assert forall|i: int, j: int|
            0 <= i < j < after.accepted.len() implies (#[trigger] after.accepted[i]).id != (
            #[trigger] after.accepted[j]).id by {
            assert(state.unlinked(state.accepted[i].id));
            if j < state.accepted.len() {
                assert(state.accepted[i].id != state.accepted[j].id);
            }
        }
        assert forall|i: int, j: int|
            0 <= i < after.handle.requests.len() && 0 <= j < after.accepted.len() implies (
            #[trigger] after.handle.requests[i]).starts() != Some((#[trigger]
                after.accepted[j]).id) by {
            if j < state.accepted.len() {
                assert(state.handle.requests[i].starts() != Some(state.accepted[j].id));
            } else {
                assert(state.handle.requests[i].starts() is Some
                    ==> state.unlinked(state.handle.requests[i].starts()->0));
            }
        }
    }
}

/// The first of the accepted connections joins the loop.
pub(crate) proof fn lemma_client_joined(state: LoopState, id: ResourceId)
    requires
        state.wf(),
        state.available(id),
        state.accepted.len() > 0,
    ensures
        (LoopState {
            accepted: state.accepted.drop_first(),
            ..state.joined(id, ResourceView::TcpStream(state.accepted[0]))
        }).wf(),
{
    let stream = state.accepted[0];
    let rest = LoopState { accepted: state.accepted.drop_first(), ..state };
    lemma_same_resources(state, rest);
    assert(rest.times_sound());
    assert(forall|i: int| 0 <= i < rest.accepted.len()
        ==> #[trigger] rest.accepted[i] == state.accepted[i + 1]);
    assert forall|shared: SharedId| #[trigger] state.unlinked(shared)
        implies rest.unlinked(shared) by {}
    assert(rest.references_sound()) by {
        assert forall|i: int|
            0 <= i < rest.handle.requests.len() && (
            #[trigger] rest.handle.requests[i]).starts() is Some implies rest.unlinked(
            rest.handle.requests[i].starts()->0,
        ) by {
            assert(state.unlinked(state.handle.requests[i].starts()->0));
        }
        assert forall|i: int| 0 <= i < rest.accepted.len() implies rest.unlinked(
            (#[trigger] rest.accepted[i]).id,
        ) by {
            assert(state.unlinked(state.accepted[i + 1].id));
        }
    }
    assert(state.unlinked(stream.id));
    assert(rest.fresh(stream.id));
    lemma_joined(rest, id, ResourceView::TcpStream(stream));
}

/// More requests and references on the handle keep the loop sound.
pub(crate) proof fn lemma_handle_used(state: LoopState, handle: HandleView)
    requires
        state.wf(),
        state.handle.used(handle),
    ensures
        (LoopState { handle, ..state }).wf(),
{
    let after = LoopState { handle, ..state };
    let old_requests = state.handle.requests;
    lemma_same_resources(state, after);
    assert forall|shared: SharedId| #[trigger] state.unlinked(shared)
        implies after.unlinked(shared) by {}
    assert forall|shared: SharedId| state.handle.next_id <= shared < handle.next_id
        implies #[trigger] after.unlinked(shared) by {
        assert forall|number: i32| !listens(after.signals, number, shared) by {
            assert(!listens(state.signals, number, shared));
        }
    }
    assert forall|i: int|
        0 <= i < handle.requests.len() && (#[trigger] handle.requests[i]).starts() is Some
            implies after.unlinked(
        handle.requests[i].starts()->0,
    ) by {
        if i < old_requests.len() {
            assert(handle.requests[i] == old_requests[i]);
            assert(state.unlinked(old_requests[i].starts()->0));
        }
    }
    assert forall|i: int, j: int|
        0 <= i < j < handle.requests.len() && (
        #[trigger] handle.requests[i]).starts() is Some implies handle.requests[i].starts() != (
    #[trigger] handle.requests[j]).starts() by {
        if i < old_requests.len() {
            assert(handle.requests[i] == old_requests[i]);
            assert(state.unlinked(old_requests[i].starts()->0));
            if j < old_requests.len() {
                assert(handle.requests[j] == old_requests[j]);
            }
        }
    }
    assert forall|i: int| 0 <= i < after.accepted.len() implies after.unlinked(
        (#[trigger] after.accepted[i]).id,
    ) by {
        assert(state.unlinked(state.accepted[i].id));
    }
    assert forall|i: int, j: int|
        0 <= i < handle.requests.len() && 0 <= j < after.accepted.len() implies (
        #[trigger] handle.requests[i]).starts() != Some((#[trigger] after.accepted[j]).id) by {
        assert(state.unlinked(state.accepted[j].id));
        if i < old_requests.len() {
            assert(handle.requests[i] == old_requests[i]);
        }
    }
    assert(after.times_sound()) by {
        assert forall|i: int|
            0 <= i < after.handle.requests.len() && (
            #[trigger] after.handle.requests[i]) is TimerStart
                implies after.handle.requests[i]->TimerStart_0.delay <= MAX_SPAN by {
            if i < old_requests.len() {
                assert(handle.requests[i] == old_requests[i]);
            }
        }
    }
}

/// Identifiers that are not used yet change nothing.
pub(crate) proof fn lemma_later_ids(
    state: LoopState,
    count: nat,
    ids: Seq<ResourceId>,
    id: ResourceId,
)
    requires
        count <= ids.len(),
    ensures
        state.served_all(count, ids.push(id)) == state.served_all(count, ids),
        state.all_servable(count, ids.push(id)) == state.all_servable(count, ids),
    decreases count,
{
    if count > 0 {
        lemma_later_ids(state, (count - 1) as nat, ids, id);
    }
}

/// The clock may be set to any time there is.
pub(crate) proof fn lemma_clock(state: LoopState, now: Nanos)
    requires
        state.wf(),
        now <= MAX_SPAN,
    ensures
        (LoopState { now, ..state }).wf(),
{
    let after = LoopState { now, ..state };
    lemma_same_resources(state, after);
    lemma_same_references(state, after);
    assert forall|id: ResourceId| after.holds(id, ResourceKind::Timer) implies (
    #[trigger] after.resources[id])->Timer_0.delay <= MAX_SPAN by {
        assert(state.holds(id, ResourceKind::Timer));
    }
}

/// A worker that is done keeps the loop sound.
pub(crate) proof fn lemma_settled(state: LoopState)
    requires
        state.wf(),
    ensures
        state.settled().wf(),
{
    let after = state.settled();
    lemma_same_resources(state, after);
    lemma_same_references(state, after);
    assert forall|id: ResourceId| after.holds(id, ResourceKind::Timer) implies (
    #[trigger] after.resources[id])->Timer_0.delay <= MAX_SPAN by {
        assert(state.holds(id, ResourceKind::Timer));
    }
}

/// A finished task keeps the loop sound.
pub(crate) proof fn lemma_finished(state: LoopState, id: ResourceId)
    requires
        state.wf(),
    ensures
        state.finished(id).0.wf(),
{
    lemma_settled(state);
    if state.holds(id, ResourceKind::Task) {
        let settled = state.settled();
        lemma_left(settled, id);
    }
}

} // verus!
