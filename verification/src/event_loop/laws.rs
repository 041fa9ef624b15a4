//! What the event-loop promises across its steps.

use crate::check::CheckHandle;
use crate::effect::{Effect, EffectView};
use crate::event_loop::calls::{call_count, called, calls, lemma_calls_concat, lemma_owner};
use crate::event_loop::lemmas::{lemma_handle_used, lemma_served};
use crate::event_loop::state::LoopState;
use crate::event_loop::{HandleView, Phase, RequestView, RunMode};
use crate::resource::{
    id_of_token, is_key, token_of, CallbackId, ResourceId, ResourceKind, ResourceView, SharedId,
    NULL_ID,
};
use crate::signals::{signaled_all, Signal};
use crate::timers::{
    at_most_once, earliest_exists, expired_before, is_entry, lone_timer_expires_once,
    no_timer_expires_early, passed_timer_expires, pending_from, schedule_is_undone, scheduled,
    unscheduled, Nanos, Timer, TimerKind, MAX_SPAN,
};
use vstd::prelude::*;

verus! {

/// A handle that makes up references and makes requests, as all of its methods
/// do, leaves the loop sound.
pub proof fn handle_keeps_loop_sound(state: LoopState, handle: HandleView)
    requires
        state.wf(),
        state.handle.used(handle),
    ensures
        (LoopState { handle, ..state }).wf(),
{
    lemma_handle_used(state, handle);
}

/// A request that starts nothing is a use of the handle.
pub proof fn request_uses_handle(handle: HandleView, request: RequestView)
    requires
        request.starts() is None,
    ensures
        handle.used(handle.queued(request)),
{
    let later = handle.queued(request);
    assert(later.requests.take(handle.requests.len() as int) =~= handle.requests);
}

/// To do nothing with a handle is a use of it, too.
pub proof fn idle_use_of_handle(handle: HandleView)
    ensures
        handle.used(handle),
{
    assert(handle.requests.take(handle.requests.len() as int) =~= handle.requests);
}

/// Making up a reference is a use of the handle.
pub proof fn reference_uses_handle(handle: HandleView)
    requires
        handle.next_id < u64::MAX,
    ensures
        handle.used(handle.referenced()),
{
    assert(handle.requests.take(handle.requests.len() as int) =~= handle.requests);
}

/// A request that starts something under a reference that was just made up is a
/// use of the handle.
pub proof fn start_uses_handle(handle: HandleView, request: RequestView)
    requires
        handle.next_id < u64::MAX,
        request.starts() == Some(handle.next_id),
        request is TimerStart ==> request->TimerStart_0.delay <= MAX_SPAN,
    ensures
        handle.used(handle.referenced().queued(request)),
{
    let later = handle.referenced().queued(request);
    assert(later.requests.take(handle.requests.len() as int) =~= handle.requests);
}

/// Several uses of a handle are one use.
pub proof fn uses_add_up(first: HandleView, second: HandleView, third: HandleView)
    requires
        first.used(second),
        second.used(third),
    ensures
        first.used(third),
{
    let count = first.requests.len();
    let middle = second.requests.len();
    assert forall|i: int| 0 <= i < middle implies #[trigger] third.requests[i]
        == second.requests[i] by {
        assert(third.requests.take(middle as int)[i] == third.requests[i]);
    }
    assert(third.requests.take(count as int) =~= second.requests.take(count as int));
    assert forall|i: int, j: int|
        count <= i < j < third.requests.len() && (
        #[trigger] third.requests[i]).starts() is Some implies third.requests[i].starts() != (
    #[trigger] third.requests[j]).starts() by {
        if i < middle {
            assert(second.requests[i].starts()->0 < second.next_id);
            if j < middle {
                assert(second.requests[j] == third.requests[j]);
            }
        }
    }
    assert forall|i: int|
        count <= i < third.requests.len() && (
        #[trigger] third.requests[i]).starts() is Some implies first.next_id
        <= third.requests[i].starts()->0 < third.next_id by {
        if i < middle {
            assert(second.requests[i].starts() is Some);
        }
    }
    assert forall|i: int|
        count <= i < third.requests.len() && (#[trigger] third.requests[i]) is TimerStart implies
        third.requests[i]->TimerStart_0.delay <= MAX_SPAN by {
        if i < middle {
            assert(second.requests[i] is TimerStart);
        }
    }
}

/// Once the request queue has been drained, no request is left and the queue
/// counts as empty.
pub proof fn drained_queue_is_empty(state: LoopState, after: LoopState, effects: Seq<EffectView>)
    requires
        state.wf(),
        state.drains_to(after, effects, false),
    ensures
        after.handle.requests.len() == 0,
        after.handle.queue_empty,
        after.handle.next_id == state.handle.next_id,
        after.now == state.now,
{
    let (count, ids) = choose|count: nat, ids: Seq<ResourceId>| #[trigger]
        state.drains_by(count, ids, after, effects, false);
    lemma_served_requests(state, count, ids);
}

/// Serving requests takes them off the queue and adds none.
pub(crate) proof fn lemma_served_requests(state: LoopState, count: nat, ids: Seq<ResourceId>)
    requires
        state.wf(),
        state.all_servable(count, ids),
    ensures
        ({
            let after = state.served_all(count, ids).0;
            &&& after.wf()
            &&& count <= state.handle.requests.len()
            &&& after.handle.requests == state.handle.requests.skip(count as int)
            &&& after.handle.next_id == state.handle.next_id
            &&& after.now == state.now
        }),
    decreases count,
{
    if count > 0 {
        let less = (count - 1) as nat;
        lemma_served_requests(state, less, ids);
        let before = state.served_all(less, ids).0;
        crate::event_loop::lemmas::lemma_received(before);
        lemma_served(before.received(), before.handle.requests[0], ids[count - 1]);
        assert(before.handle.requests.drop_first() =~= state.handle.requests.skip(count as int));
    } else {
        assert(state.handle.requests.skip(0) =~= state.handle.requests);
    }
}

/// Requests are served in the order they were made: serving `count` requests
/// and one more is serving `count + 1`, where the one more is the request that
/// was made as number `count`.
pub proof fn requests_are_served_in_order(state: LoopState, count: nat, ids: Seq<ResourceId>)
    requires
        state.wf(),
        state.all_servable(count, ids),
        count < state.handle.requests.len(),
    ensures
        ({
            let before = state.served_all(count, ids);
            let (after, effects) = before.0.received().served(
                state.handle.requests[count as int],
                ids[count as int],
            );
            state.served_all(count + 1, ids) == (after, before.1 + effects)
        }),
{
    lemma_served_requests(state, count, ids);
}

/// A new resource can be reached through its reference from the moment its
/// request is served.
pub proof fn reference_resolves(state: LoopState, request: RequestView, new: ResourceId)
    requires
        state.wf(),
        state.admits(request),
        request.resource() is Some,
        state.available(new),
    ensures
        ({
            let after = state.served(request, new).0;
            &&& after.id_of(request.starts()->0) == new
            &&& after.resources.contains_key(new)
            &&& after.resources[new] == request.resource()->0
        }),
{
}

/// No reference leads to a resource that has left: it leads to the null
/// identifier, which no resource has.
pub proof fn reference_of_removed_resource_is_null(state: LoopState, id: ResourceId)
    requires
        state.wf(),
        state.resources.contains_key(id),
    ensures
        ({
            let after = state.left(id);
            &&& after.id_of(state.resources[id].shared_id()) == NULL_ID
            &&& !after.resources.contains_key(NULL_ID)
            &&& !after.resources.contains_key(id)
        }),
{
    assert(!state.resources.contains_key(NULL_ID));
}

/// Every other resource and every other reference stays as it is when a
/// resource leaves.
pub proof fn removal_spares_the_rest(
    state: LoopState,
    id: ResourceId,
    other: ResourceId,
)
    requires
        state.wf(),
        state.resources.contains_key(id),
        state.resources.contains_key(other),
        id != other,
    ensures
        ({
            let after = state.left(id);
            &&& after.resources.contains_key(other)
            &&& after.resources[other] == state.resources[other]
            &&& after.id_of(state.resources[other].shared_id()) == other
        }),
{
}

/// Canceling something twice is canceling it once.
pub proof fn second_cancel_does_nothing(state: LoopState, shared: SharedId)
    requires
        state.wf(),
    ensures
        ({
            let after = state.dropped(shared).0;
            after.dropped(shared) == (after, Seq::<EffectView>::empty())
        }),
{
    assert(!state.resources.contains_key(NULL_ID));
}

/// A timer that is started expires once its delay has passed.
pub proof fn timer_is_scheduled_after_its_delay(state: LoopState, timer: Timer, new: ResourceId)
    requires
        state.wf(),
        state.admits(RequestView::TimerStart(timer)),
        state.available(new),
    ensures
        ({
            let after = state.served(RequestView::TimerStart(timer), new).0;
            let at = (state.now + timer.delay) as u128;
            &&& at == state.now + timer.delay
            &&& after.holds(new, ResourceKind::Timer)
            &&& after.resources[new] == ResourceView::Timer(timer)
            &&& after.timers.contains_key(at)
            &&& after.timers[at].contains(new)
        }),
{
    let at = (state.now + timer.delay) as u128;
    let timers = scheduled(state.timers, at, new);
    assert(timers[at].last() == new);
    assert(timers[at][timers[at].len() - 1] == new);
}

/// What fires leaves every other timer alone.
pub(crate) proof fn lemma_fired_spares(state: LoopState, ids: Seq<ResourceId>, id: ResourceId)
    requires
        !ids.contains(id),
        state.resources.contains_key(id),
    ensures
        state.fired_all(ids).0.resources.contains_key(id),
        state.fired_all(ids).0.resources[id] == state.resources[id],
    decreases ids.len(),
{
    if ids.len() > 0 {
        assert forall|i: int| 0 <= i < ids.drop_last().len() implies ids.drop_last()[i] != id by {
            assert(ids[i] != id);
        }
        assert(ids[ids.len() - 1] != id);
        lemma_fired_spares(state, ids.drop_last(), id);
    }
}

/// The effects of those that fire first come first.
proof fn lemma_fired_effects(state: LoopState, ids: Seq<ResourceId>, count: int)
    requires
        0 <= count <= ids.len(),
    ensures
        state.fired_all(ids.take(count)).1.is_prefix_of(state.fired_all(ids).1),
    decreases ids.len(),
{
    let effects = state.fired_all(ids).1;
    if count == ids.len() {
        assert(ids.take(count) =~= ids);
        assert(effects.take(effects.len() as int) =~= effects);
    } else {
        lemma_fired_effects(state, ids.drop_last(), count);
        assert(ids.drop_last().take(count) =~= ids.take(count));
        let before = state.fired_all(ids.drop_last()).1;
        let first = state.fired_all(ids.take(count)).1;
        assert(effects.take(first.len() as int) =~= before.take(first.len() as int));
    }
}

/// A timer that is scheduled at an instant that has passed fires in the timers
/// phase: its callback runs.
pub proof fn due_timer_fires(state: LoopState, id: ResourceId, at: Nanos)
    requires
        state.wf(),
        state.holds(id, ResourceKind::Timer),
        state.timers.contains_key(at),
        state.timers[at].contains(id),
        at < state.now,
    ensures
        state.timers_run().1.contains(
            EffectView::Plain(Effect::TimerCallback(state.resources[id]->Timer_0.callback)),
        ),
{
    let due = expired_before(state.timers, state.now);
    let start = LoopState { timers: pending_from(state.timers, state.now), ..state };
    passed_timer_expires(state.timers, state.now, at, id);
    let k = lemma_first_occurrence(due, id);
    let callback = EffectView::Plain(
        Effect::TimerCallback(state.resources[id]->Timer_0.callback),
    );
    assert(!due.take(k).contains(id)) by {
        assert forall|i: int| 0 <= i < k implies due.take(k)[i] != id by {
            assert(due[i] != id);
        }
    }
    lemma_fired_spares(start, due.take(k), id);
    assert(due.take(k + 1).drop_last() =~= due.take(k));
    assert(due.take(k + 1).last() == id);
    let before = start.fired_all(due.take(k));
    let ran = start.fired_all(due.take(k + 1)).1;
    assert(ran[before.1.len() as int] == callback);
    lemma_fired_effects(start, due, k + 1);
    let all = state.timers_run().1;
    assert(all.take(ran.len() as int)[before.1.len() as int] == callback);
    assert(all[before.1.len() as int] == callback);
}

/// A timer that is there is scheduled for exactly one instant, and has one entry
/// there, as long as no identifier can have been given out twice.
pub proof fn live_timer_has_one_entry(state: LoopState, id: ResourceId)
    requires
        state.wf(),
        state.holds(id, ResourceKind::Timer),
        state.keys_unique(),
    ensures
        exists|at: Nanos, i: int| #[trigger]
            is_entry(state.timers, at, i, id) && forall|other: Nanos, j: int| #[trigger]
                is_entry(state.timers, other, j, id) ==> other == at && j == i,
{
    let at = choose|at: Nanos| #[trigger]
        state.timers.contains_key(at) && state.timers[at].contains(id);
    let i = choose|i: int| 0 <= i < state.timers[at].len() && state.timers[at][i] == id;
    assert(is_entry(state.timers, at, i, id));
}

/// What fires runs the callback of a timer as often as the timer is among it, if
/// it is once at most and no other timer has the callback.
proof fn lemma_fire_count(
    state: LoopState,
    ids: Seq<ResourceId>,
    id: ResourceId,
    callback: CallbackId,
)
    requires
        at_most_once(ids, id),
        state.holds(id, ResourceKind::Timer),
        state.resources[id]->Timer_0.callback == callback,
        forall|other: ResourceId| #[trigger]
            state.resources.contains_key(other) && other != id ==> !state.resources[other].has(
                callback,
            ),
    ensures
        ({
            let (after, effects) = state.fired_all(ids);
            &&& call_count(effects, callback) == if ids.contains(id) {
                1nat
            } else {
                0nat
            }
            &&& forall|other: ResourceId| #[trigger]
                after.resources.contains_key(other) ==> state.resources.contains_key(other)
                    && after.resources[other] == state.resources[other]
        }),
    decreases ids.len(),
{
    if ids.len() > 0 {
        let less = ids.drop_last();
        let last = ids.last();
        assert forall|i: int, j: int|
            0 <= i < less.len() && 0 <= j < less.len() && #[trigger] less[i] == id
                && #[trigger] less[j] == id implies i == j by {
            assert(ids[i] == id && ids[j] == id);
        }
        lemma_fire_count(state, less, id, callback);
        let (before, effects) = state.fired_all(less);
        let more = before.fired(last).1;
        lemma_calls_concat(effects, more, callback);
        reveal_with_fuel(call_count, 3);
        assert(more.len() <= 2);
        assert(more.len() > 0 ==> more.drop_last().len() == more.len() - 1);
        assert(more.len() == 2 ==> more.drop_last().drop_last().len() == 0);
        assert(ids[ids.len() - 1] == last);
        if last == id {
            assert(!less.contains(id)) by {
                if less.contains(id) {
                    let i = choose|i: int| 0 <= i < less.len() && less[i] == id;
                    assert(ids[i] == id);
                }
            }
            lemma_fired_spares(state, less, id);
            assert(call_count(more, callback) == 1);
        } else {
            assert(call_count(more, callback) == 0) by {
                if before.holds(last, ResourceKind::Timer) {
                    assert(state.resources.contains_key(last));
                }
            }
            assert(ids.contains(id) <==> less.contains(id)) by {
                if ids.contains(id) {
                    let i = choose|i: int| 0 <= i < ids.len() && ids[i] == id;
                    assert(less[i] == id);
                }
                if less.contains(id) {
                    let i = choose|i: int| 0 <= i < less.len() && less[i] == id;
                    assert(ids[i] == id);
                }
            }
        }
    }
}

/// A timer whose callback is its own fires at most once in a timers phase, and
/// exactly once if its instant has passed, as long as no identifier can have been
/// given out twice.
pub proof fn timer_fires_once_per_iteration(state: LoopState, id: ResourceId)
    requires
        state.wf(),
        state.holds(id, ResourceKind::Timer),
        state.keys_unique(),
        state.belongs(
            state.resources[id]->Timer_0.callback,
            state.resources[id].shared_id(),
            ResourceKind::Timer,
        ),
    ensures
        ({
            let callback = state.resources[id]->Timer_0.callback;
            call_count(state.timers_run().1, callback) == if exists|at: Nanos, i: int| #[trigger]
                is_entry(state.timers, at, i, id) && at < state.now {
                1nat
            } else {
                0nat
            }
        }),
{
    let callback = state.resources[id]->Timer_0.callback;
    let shared = state.resources[id].shared_id();
    let due = expired_before(state.timers, state.now);
    let start = LoopState { timers: pending_from(state.timers, state.now), ..state };
    lone_timer_expires_once(state.timers, state.now, id);
    assert forall|other: ResourceId| #[trigger] start.resources.contains_key(other) && other
        != id implies !start.resources[other].has(callback) by {
        if state.resources[other].has(callback) {
            lemma_owner(state, callback, shared, ResourceKind::Timer, other);
            lemma_owner(state, callback, shared, ResourceKind::Timer, id);
        }
    }
    lemma_fire_count(start, due, id, callback);
    if exists|at: Nanos, i: int| #[trigger] is_entry(state.timers, at, i, id) && at < state.now {
        let (at, i) = choose|at: Nanos, i: int| #[trigger]
            is_entry(state.timers, at, i, id) && at < state.now;
        assert(state.timers[at].contains(id));
        passed_timer_expires(state.timers, state.now, at, id);
    } else if due.contains(id) {
        let k = choose|k: int| 0 <= k < due.len() && due[k] == id;
        no_timer_expires_early(state.timers, state.now, k);
        let at = choose|at: Nanos| #[trigger]
            state.timers.contains_key(at) && at < state.now && state.timers[at].contains(id);
        let i = choose|i: int| 0 <= i < state.timers[at].len() && state.timers[at][i] == id;
        assert(is_entry(state.timers, at, i, id));
    }
}

/// Where something occurs, it occurs for a first time.
pub(crate) proof fn lemma_first_occurrence(ids: Seq<ResourceId>, id: ResourceId) -> (first: int)
    requires
        ids.contains(id),
    ensures
        0 <= first < ids.len(),
        ids[first] == id,
        forall|i: int| 0 <= i < first ==> #[trigger] ids[i] != id,
    decreases ids.len(),
{
    let last = ids.len() - 1;
    if ids.drop_last().contains(id) {
        let first = lemma_first_occurrence(ids.drop_last(), id);
        assert(ids[first] == id);
        assert forall|i: int| 0 <= i < first implies #[trigger] ids[i] != id by {
            assert(ids.drop_last()[i] != id);
        }
        first
    } else {
        assert forall|i: int| 0 <= i < last implies #[trigger] ids[i] != id by {
            assert(ids.drop_last()[i] == ids[i]);
        }
        last
    }
}

/// Starting a timer and canceling it leaves the loop as it was, but for the entry
/// among the scheduled timers and the identifier that was given out: nothing is
/// kept alive, and every other timer is scheduled as before.
pub proof fn cancel_undoes_start(state: LoopState, timer: Timer, new: ResourceId)
    requires
        state.wf(),
        state.admits(RequestView::TimerStart(timer)),
        state.available(new),
    ensures
        ({
            let started = state.served(RequestView::TimerStart(timer), new).0;
            let after = started.served(RequestView::TimerCancel(timer.id), 0).0;
            &&& after == (LoopState {
                timers: started.timers,
                issued: started.issued,
                ..state
            })
            &&& after.pending() == state.pending()
            &&& unscheduled(after.timers, new) == unscheduled(state.timers, new)
        }),
{
    let started = state.served(RequestView::TimerStart(timer), new).0;
    let after = started.served(RequestView::TimerCancel(timer.id), 0).0;
    let at = (state.now + timer.delay) as u128;
    assert(after.resources =~= state.resources);
    assert(after.links =~= state.links);
    schedule_is_undone(state.timers, at, new);
}

/// A timer that runs once leaves the loop when it fires: it does not fire again.
pub proof fn timeout_fires_once(state: LoopState, id: ResourceId)
    requires
        state.holds(id, ResourceKind::Timer),
        state.resources[id]->Timer_0.kind == TimerKind::Timeout,
    ensures
        ({
            let (after, effects) = state.fired(id);
            &&& effects.len() == 2
            &&& effects[0] == EffectView::Plain(
                Effect::TimerCallback(state.resources[id]->Timer_0.callback),
            )
            &&& !after.resources.contains_key(id)
            &&& after.fired(id) == (after, Seq::<EffectView>::empty())
        }),
{
}

/// A timer that runs over and over is scheduled anew when it fires, a delay
/// after the time of the iteration.
pub proof fn interval_fires_again(state: LoopState, id: ResourceId)
    requires
        state.wf(),
        state.holds(id, ResourceKind::Timer),
        state.resources[id]->Timer_0.kind == TimerKind::Interval,
    ensures
        ({
            let timer = state.resources[id]->Timer_0;
            let (after, effects) = state.fired(id);
            let at = (state.now + timer.delay) as u128;
            &&& effects == seq![EffectView::Plain(Effect::TimerCallback(timer.callback))]
            &&& after.resources == state.resources
            &&& at == state.now + timer.delay
            &&& after.timers.contains_key(at)
            &&& after.timers[at].contains(id)
        }),
{
    let timer = state.resources[id]->Timer_0;
    let at = (state.now + timer.delay) as u128;
    let timers = scheduled(state.timers, at, id);
    assert(timers[at][timers[at].len() - 1] == id);
}

/// As long as there is a timer, the poll phase does not block beyond the
/// instant it expires at.
pub proof fn poll_does_not_outlast_a_timer(state: LoopState, id: ResourceId, mode: RunMode)
    requires
        state.wf(),
        state.holds(id, ResourceKind::Timer),
    ensures
        exists|at: Nanos|
            {
                &&& #[trigger] state.timers.contains_key(at)
                &&& state.timers[at].contains(id)
                &&& state.poll_timeout(mode) is Some
                &&& state.poll_timeout(mode)->0 == 0 || state.now + state.poll_timeout(mode)->0
                    <= at
            },
{
    let at = choose|at: Nanos| #[trigger]
        state.timers.contains_key(at) && state.timers[at].contains(id);
    earliest_exists(state.timers, at);
}

/// The callback of every check resource runs in the check phase.
pub proof fn check_runs_in_every_iteration(state: LoopState, id: ResourceId)
    requires
        state.wf(),
        state.holds(id, ResourceKind::Check),
    ensures
        ({
            let check = state.resources[id]->Check_0;
            state.checked_all(state.check_queue).contains(
                EffectView::Plain(
                    Effect::CheckCallback(check.callback, CheckHandle { id: check.id }),
                ),
            )
        }),
{
    lemma_checked(state, state.check_queue, id);
}

/// What is in the queue contributes its effect.
proof fn lemma_checked(state: LoopState, ids: Seq<ResourceId>, id: ResourceId)
    requires
        ids.contains(id),
        state.holds(id, ResourceKind::Check),
    ensures
        state.checked_all(ids).contains(state.checked(id)[0]),
    decreases ids.len(),
{
    let less = ids.drop_last();
    let all = state.checked_all(ids);
    let earlier = state.checked_all(less);
    if ids.last() == id {
        assert(all[earlier.len() as int] == state.checked(id)[0]);
    } else {
        let i = choose|i: int| 0 <= i < ids.len() && ids[i] == id;
        assert(less[i] == id);
        lemma_checked(state, less, id);
        let k = choose|k: int| 0 <= k < earlier.len() && earlier[k] == state.checked(id)[0];
        assert(all[k] == state.checked(id)[0]);
    }
}

/// The callback of a check resource, if it is its own, runs exactly once in the
/// check phase, as long as no identifier can have been given out twice.
pub proof fn check_runs_once_per_iteration(state: LoopState, id: ResourceId)
    requires
        state.wf(),
        state.holds(id, ResourceKind::Check),
        state.keys_unique(),
        state.belongs(
            state.resources[id]->Check_0.callback,
            state.resources[id].shared_id(),
            ResourceKind::Check,
        ),
    ensures
        call_count(
            state.checked_all(state.check_queue),
            state.resources[id]->Check_0.callback,
        ) == 1,
{
    let callback = state.resources[id]->Check_0.callback;
    let shared = state.resources[id].shared_id();
    assert forall|other: ResourceId| #[trigger] state.resources.contains_key(other) && other
        != id implies !state.resources[other].has(callback) by {
        if state.resources[other].has(callback) {
            lemma_owner(state, callback, shared, ResourceKind::Check, other);
            lemma_owner(state, callback, shared, ResourceKind::Check, id);
        }
    }
    lemma_check_count(state, state.check_queue, id, callback);
}

/// The check callbacks hold that of a check resource as often as it is in the
/// queue, if it is once at most and no other has the callback.
proof fn lemma_check_count(
    state: LoopState,
    ids: Seq<ResourceId>,
    id: ResourceId,
    callback: CallbackId,
)
    requires
        ids.no_duplicates(),
        state.holds(id, ResourceKind::Check),
        state.resources[id]->Check_0.callback == callback,
        forall|other: ResourceId| #[trigger]
            state.resources.contains_key(other) && other != id ==> !state.resources[other].has(
                callback,
            ),
    ensures
        call_count(state.checked_all(ids), callback) == if ids.contains(id) {
            1nat
        } else {
            0nat
        },
    decreases ids.len(),
{
    if ids.len() > 0 {
        let less = ids.drop_last();
        let last = ids.last();
        lemma_check_count(state, less, id, callback);
        let more = state.checked(last);
        lemma_calls_concat(state.checked_all(less), more, callback);
        reveal_with_fuel(call_count, 2);
        assert(more.len() > 0 ==> more.drop_last().len() == 0);
        assert(ids[ids.len() - 1] == last);
        assert(call_count(more, callback) == if last == id {
            1nat
        } else {
            0nat
        }) by {
            if state.holds(last, ResourceKind::Check) {
                assert(state.resources.contains_key(last));
            }
        }
        if ids.contains(id) && last != id {
            let i = choose|i: int| 0 <= i < ids.len() && ids[i] == id;
            assert(less[i] == id);
        }
        if less.contains(id) {
            let i = choose|i: int| 0 <= i < less.len() && less[i] == id;
            assert(ids[i] == id);
        }
    }
}

/// A check resource that was removed runs no more.
pub proof fn removed_check_does_not_run(state: LoopState, shared: SharedId)
    requires
        state.wf(),
        state.holds(state.id_of(shared), ResourceKind::Check),
    ensures
        ({
            let id = state.id_of(shared);
            let after = state.served(RequestView::CheckRemove(shared), 0).0;
            &&& after.wf()
            &&& !after.check_queue.contains(id)
            &&& after.checked(id) == Seq::<EffectView>::empty()
        }),
{
    let id = state.id_of(shared);
    lemma_served(state, RequestView::CheckRemove(shared), 0);
    let after = state.served(RequestView::CheckRemove(shared), 0).0;
    assert(!after.holds(id, ResourceKind::Check));
}

/// The output of a task that was canceled is discarded: no callback runs when a
/// worker reports it.
pub proof fn canceled_task_is_discarded(state: LoopState, shared: SharedId)
    requires
        state.wf(),
        state.holds(state.id_of(shared), ResourceKind::Task),
    ensures
        ({
            let id = state.id_of(shared);
            let after = state.served(RequestView::TaskCancel(shared), 0).0;
            after.finished(id) == (after.settled(), Seq::<EffectView>::empty())
        }),
{
}

/// The callback of a finished task runs once: a second report leads to nothing.
pub proof fn finished_task_is_reported_once(state: LoopState, id: ResourceId)
    requires
        state.holds(id, ResourceKind::Task),
    ensures
        ({
            let (after, effects) = state.finished(id);
            &&& state.resources[id]->Task_0.on_complete matches Some(callback) ==> effects[0]
                == EffectView::Plain(Effect::TaskCallback(callback))
            &&& after.finished(id).1 == Seq::<EffectView>::empty()
        }),
{
}

/// A file-system watcher that was stopped is silent, and so are a file-system
/// event resource and a terminal reader that were stopped.
pub proof fn stopped_watcher_is_silent(state: LoopState, shared: SharedId)
    requires
        state.wf(),
    ensures
        ({
            let id = state.id_of(shared);
            &&& state.served(RequestView::FsWatcherStop(shared), 0).0.watch_seen(id) == Seq::<
                EffectView,
            >::empty()
            &&& state.served(RequestView::FsEventStop(shared), 0).0.fs_event_seen(id) == Seq::<
                EffectView,
            >::empty()
            &&& state.served(RequestView::TtyClose(shared), 0).0.input_seen(
                state.reader_of(shared),
            ) == Seq::<EffectView>::empty()
        }),
{
}

/// Signal listeners do not keep the loop alive: neither a listener that is added
/// nor one that is removed nor a signal changes whether there is pending work.
pub proof fn signals_do_not_keep_the_loop_alive(
    state: LoopState,
    number: i32,
    signal: Signal,
    numbers: Seq<i32>,
)
    ensures
        state.served(RequestView::SignalStart(number, signal), 0).0.pending() == state.pending(),
        state.served(RequestView::SignalStop(signal.id), 0).0.pending() == state.pending(),
        (LoopState { signals: signaled_all(state.signals, numbers).0, ..state }).pending()
            == state.pending(),
{
}

/// In the default mode the loop goes on as long as there is pending work, and
/// no longer. In the other modes every phase runs once.
pub proof fn modes_end_the_loop(state: LoopState, mode: RunMode)
    ensures
        state.next_phase(RunMode::Default, Phase::Close) == Phase::Done <==> !state.pending(),
        mode != RunMode::Default ==> state.next_phase(mode, Phase::Close) == Phase::Done,
        state.next_phase(mode, Phase::Requests) == Phase::Timers,
        state.next_phase(mode, Phase::Timers) is Poll,
        state.next_phase(mode, Phase::Poll(None)) == Phase::Check,
        state.next_phase(mode, Phase::Check) == Phase::Close,
        state.next_phase(mode, Phase::Done) == Phase::Done,
{
}

/// The loop does not block where it was asked not to wait, where there is no
/// pending work, and where check callbacks or closing resources are waiting.
pub proof fn poll_does_not_block_needlessly(state: LoopState, mode: RunMode)
    ensures
        state.poll_timeout(RunMode::NoWait) == Some(0u128),
        !state.pending() ==> state.poll_timeout(mode) == Some(0u128),
        state.check_queue.len() > 0 ==> state.poll_timeout(mode) == Some(0u128),
        state.close_queue.len() > 0 ==> state.poll_timeout(mode) == Some(0u128),
{
}

/// There is pending work exactly where there is a resource, a request that was
/// not served yet or a task that was not finished yet. Signal listeners are none
/// of these.
pub proof fn pending_work_is_live_work(state: LoopState)
    requires
        state.wf(),
    ensures
        state.pending() <==> {
            ||| exists|id: ResourceId| #[trigger] state.resources.contains_key(id)
            ||| state.handle.requests.len() > 0
            ||| state.pool.pending > 0
        },
{
    if !(exists|id: ResourceId| #[trigger] state.resources.contains_key(id)) {
        assert(state.resources =~= Map::empty());
    }
}

/// A new loop has no pending work.
pub proof fn new_loop_is_idle(num_threads: usize)
    ensures
        LoopState::start(num_threads).wf(),
        !LoopState::start(num_threads).pending(),
{
}

/// Check resources that are gone do not run, and nothing is left to close.
proof fn lemma_nothing_runs(state: LoopState, ids: Seq<ResourceId>)
    requires
        state.resources == Map::<ResourceId, ResourceView>::empty(),
    ensures
        state.checked_all(ids) == Seq::<EffectView>::empty(),
        state.closed_all(ids) == (state, Seq::<EffectView>::empty()),
    decreases ids.len(),
{
    if ids.len() > 0 {
        lemma_nothing_runs(state, ids.drop_last());
        assert(Seq::<EffectView>::empty() + Seq::<EffectView>::empty()
            =~= Seq::<EffectView>::empty());
    }
}

/// Timers that are gone do not fire.
proof fn lemma_nothing_fires(state: LoopState, ids: Seq<ResourceId>)
    requires
        state.resources == Map::<ResourceId, ResourceView>::empty(),
    ensures
        state.fired_all(ids) == (state, Seq::<EffectView>::empty()),
    decreases ids.len(),
{
    if ids.len() > 0 {
        lemma_nothing_fires(state, ids.drop_last());
        assert(Seq::<EffectView>::empty() + Seq::<EffectView>::empty()
            =~= Seq::<EffectView>::empty());
    }
}

/// A loop without pending work runs to its end: no phase has an effect or makes
/// work, polling does not block, and after the close phase the loop is done.
pub proof fn idle_loop_ends(state: LoopState, mode: RunMode)
    requires
        state.wf(),
        !state.pending(),
    ensures
        ({
            let (after, effects) = state.timers_run();
            &&& effects == Seq::<EffectView>::empty()
            &&& after == (LoopState { timers: pending_from(state.timers, state.now), ..state })
            &&& !after.pending()
            &&& after.poll_timeout(mode) == Some(0u128)
            &&& after.checked_all(after.check_queue) == Seq::<EffectView>::empty()
            &&& after.closes_run().1 == Seq::<EffectView>::empty()
            &&& !after.closes_run().0.pending()
            &&& after.closes_run().0.next_phase(mode, Phase::Close) == Phase::Done
        }),
{
    let start = LoopState { timers: pending_from(state.timers, state.now), ..state };
    lemma_nothing_fires(start, expired_before(state.timers, state.now));
    lemma_nothing_runs(start, state.check_queue);
    lemma_nothing_runs(LoopState { close_queue: Seq::empty(), ..start }, state.close_queue);
}

/// A resource other than a task that is started and canceled before the loop runs
/// leaves an idle loop idle: once both requests are served there is no pending
/// work, its callback has not been run, and in the default mode the loop ends
/// with the iteration.
pub proof fn start_and_cancel_leave_loop_idle(
    state: LoopState,
    start: RequestView,
    cancel: RequestView,
    callback: CallbackId,
    ids: Seq<ResourceId>,
)
    requires
        state.wf(),
        state.resources == Map::<ResourceId, ResourceView>::empty(),
        state.pool.pending == 0,
        state.handle.requests == seq![start, cancel],
        start.adds(callback),
        start.resource()->0.kind() != ResourceKind::Task,
        cancel.cancels() == Some(start.resource()->0.shared_id()),
        ids.len() == 2,
        state.all_servable(2, ids),
    ensures
        ({
            let (after, effects) = state.served_all(2, ids);
            &&& after.wf()
            &&& !after.pending()
            &&& !calls(effects, callback)
            &&& after.timers_run().1 == Seq::<EffectView>::empty()
            &&& !after.timers_run().0.pending()
            &&& after.timers_run().0.next_phase(RunMode::Default, Phase::Close) == Phase::Done
        }),
{
    let resource = start.resource()->0;
    let shared = resource.shared_id();
    reveal_with_fuel(LoopState::served_all, 3);
    reveal_with_fuel(LoopState::all_servable, 3);
    lemma_served_requests(state, 2, ids);
    let (started, first) = state.received().served(start, ids[0]);
    assert(state.served_all(1, ids).0 == started);
    assert(state.received().handle.requests =~= seq![cancel]);
    let (after, second) = started.received().served(cancel, ids[1]);
    assert(state.served_all(2, ids) == (after, first + second)) by {
        assert(Seq::<EffectView>::empty() + first =~= first);
    }
    assert(started.received().id_of(shared) == ids[0]);
    assert(after.resources =~= state.resources);
    assert(state.handle.requests.skip(2).len() == 0);
    assert forall|i: int| 0 <= i < (first + second).len() implies called(
        #[trigger] (first + second)[i],
    ) != Some(callback) by {
        if i >= first.len() {
            assert((first + second)[i] == second[i - first.len()]);
        }
    }
    idle_loop_ends(after, RunMode::Default);
}

/// A stream that is closed is shut down in the close phase, its close callback
/// runs, and it leaves the loop.
pub proof fn closed_stream_runs_its_callback(
    state: LoopState,
    shared: SharedId,
    callback: CallbackId,
)
    requires
        state.wf(),
        state.servable(RequestView::TcpClose(shared, callback)),
    ensures
        ({
            let id = state.id_of(shared);
            let asked = state.served(RequestView::TcpClose(shared, callback), 0).0;
            let (after, effects) = asked.closed(id);
            let socket = state.resources[id]->TcpStream_0.socket;
            &&& asked.close_queue.last() == id
            &&& effects.len() == 3
            &&& effects[0] == EffectView::Plain(Effect::Shutdown(socket))
            &&& effects[1] == EffectView::Plain(Effect::CloseCallback(callback))
            &&& effects[2] is Drop
            &&& after.closed(id) == (after, Seq::<EffectView>::empty())
        }),
{
}

/// Whatever waits to be closed leaves the loop in the close phase.
pub proof fn close_phase_removes_what_waits(state: LoopState, i: int)
    requires
        state.wf(),
        0 <= i < state.close_queue.len(),
    ensures
        !state.closes_run().0.resources.contains_key(state.close_queue[i]),
        state.closes_run().0.close_queue.len() == 0,
{
    let start = LoopState { close_queue: Seq::empty(), ..state };
    lemma_closed_gone(start, state.close_queue, i);
    crate::event_loop::lemmas::lemma_closed_all(state, state.close_queue.len() as int);
    assert(state.close_queue.take(state.close_queue.len() as int) =~= state.close_queue);
}

/// What is closed is gone.
proof fn lemma_closed_gone(state: LoopState, ids: Seq<ResourceId>, i: int)
    requires
        0 <= i < ids.len(),
    ensures
        !state.closed_all(ids).0.resources.contains_key(ids[i]),
    decreases ids.len(),
{
    if i < ids.len() - 1 {
        lemma_closed_gone(state, ids.drop_last(), i);
        assert(ids.drop_last()[i] == ids[i]);
    }
}

/// The stream of every new connection joins the loop and can be reached through
/// the reference that its callback was given.
pub proof fn accepted_connection_is_reachable(state: LoopState, ids: Seq<ResourceId>, i: int)
    requires
        state.wf(),
        ids.len() == state.accepted.len(),
        state.clients_available(ids),
        0 <= i < ids.len(),
    ensures
        ({
            let after = state.clients_joined(ids).0;
            &&& after.resources.contains_key(ids[i])
            &&& after.resources[ids[i]] == ResourceView::TcpStream(state.accepted[i])
            &&& after.id_of(state.accepted[i].id) == ids[i]
            &&& after.accepted.len() == 0
        }),
{
    lemma_clients(state, ids, i);
}

/// The first streams of the new connections have joined, each under its
/// identifier.
proof fn lemma_clients(state: LoopState, ids: Seq<ResourceId>, i: int)
    requires
        state.wf(),
        ids.len() <= state.accepted.len(),
        state.clients_available(ids),
        0 <= i < ids.len(),
    ensures
        ({
            let after = state.clients_joined(ids).0;
            &&& after.wf()
            &&& after.accepted == state.accepted.skip(ids.len() as int)
            &&& after.resources.contains_key(ids[i])
            &&& after.resources[ids[i]] == ResourceView::TcpStream(state.accepted[i])
            &&& after.id_of(state.accepted[i].id) == ids[i]
        }),
    decreases ids.len(),
{
    let less = ids.drop_last();
    let before = state.clients_joined(less).0;
    lemma_clients_sound(state, less);
    crate::event_loop::lemmas::lemma_client_joined(before, ids.last());
    assert(before.accepted.drop_first() =~= state.accepted.skip(ids.len() as int));
    if i < less.len() {
        lemma_clients(state, less, i);
        assert(less[i] == ids[i]);
        assert(state.accepted[i].id != state.accepted[less.len() as int].id);
    }
}

/// The streams that join leave the loop sound.
proof fn lemma_clients_sound(state: LoopState, ids: Seq<ResourceId>)
    requires
        state.wf(),
        ids.len() <= state.accepted.len(),
        state.clients_available(ids),
    ensures
        state.clients_joined(ids).0.wf(),
        state.clients_joined(ids).0.accepted == state.accepted.skip(ids.len() as int),
    decreases ids.len(),
{
    if ids.len() > 0 {
        let less = ids.drop_last();
        lemma_clients_sound(state, less);
        let before = state.clients_joined(less).0;
        crate::event_loop::lemmas::lemma_client_joined(before, ids.last());
        assert(before.accepted.drop_first() =~= state.accepted.skip(ids.len() as int));
    } else {
        assert(state.accepted.skip(0) =~= state.accepted);
    }
}

/// On machines with 64-bit words, the token of a resource leads back to it, and
/// is neither that of the waker nor that of the signals.
pub proof fn token_leads_back(id: ResourceId)
    requires
        usize::BITS == 64,
        is_key(id),
    ensures
        id_of_token(token_of(id)) == id,
        token_of(id) != crate::event_loop::phases::WAKER_TOKEN,
        token_of(id) != crate::event_loop::phases::SIGNAL_TOKEN,
{
    assert(((id as usize) as u64) | 0x1_0000_0000 == id && (id as usize) != 0 && (id as usize) != 1)
        by (bit_vector)
        requires
            usize::BITS == 64,
            id & 0x1_0000_0000 != 0,
    ;
}

} // verus!
