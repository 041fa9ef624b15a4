//! The way of a timer: from its request to the phase in which it fires.

use crate::event_loop::calls::{
    call_count, known_as, lemma_calls_concat, lemma_no_calls, step_keeps_callback,
};
use crate::event_loop::laws::{
    lemma_fired_spares, lemma_first_occurrence, timer_fires_once_per_iteration,
    timer_is_scheduled_after_its_delay,
};
use crate::event_loop::lemmas::{lemma_not_closing, lemma_received};
use crate::event_loop::runs::{
    lemma_issued_grow, run_keeps_loop_sound, runs_add_up, step_keeps_loop_sound, Step,
};
use crate::event_loop::state::LoopState;
use crate::event_loop::waiting::{
    lemma_called_by_owner, lemma_closed_spares, lemma_hears_concat, lemma_quiet_while_waiting,
    lemma_waits, serve_count,
};
use crate::event_loop::RequestView;
use crate::resource::{ResourceId, ResourceKind, ResourceView};
use crate::timers::{
    expired_before, is_entry, lone_timer_expires_once, no_timer_expires_early,
    passed_timer_expires, pending_from, scheduled, Nanos, Timer, TimerKind,
};
use vstd::prelude::*;

verus! {

impl LoopState {
    /// Whether a timer is in the loop and waits for an instant.
    pub open spec fn awaits(self, id: ResourceId, timer: Timer, at: Nanos) -> bool {
        &&& self.resources.contains_key(id)
        &&& self.resources[id] == ResourceView::Timer(timer)
        &&& self.timers.contains_key(at)
        &&& self.timers[at].contains(id)
    }

    /// Whether a step ends the wait of a timer for an instant: the expired timers
    /// fire once the instant has passed, or the timer is canceled.
    pub open spec fn disposes(self, step: Step, timer: Timer, at: Nanos) -> bool {
        ||| step is Timers && at < self.now
        ||| step is Serve && self.handle.requests[0].cancels() == Some(timer.id)
    }

    /// Whether some step of a run ends the wait of a timer for an instant.
    pub open spec fn disposes_in(self, steps: Seq<Step>, timer: Timer, at: Nanos) -> bool
        decreases steps.len(),
    {
        steps.len() > 0 && (self.disposes_in(steps.drop_last(), timer, at) || self.ran(
            steps.drop_last(),
        ).0.disposes(steps.last(), timer, at))
    }
}

/// A timer that is scheduled stays so when another is.
proof fn lemma_still_scheduled(
    timers: Map<Nanos, Seq<ResourceId>>,
    time: Nanos,
    other: ResourceId,
    at: Nanos,
    id: ResourceId,
)
    requires
        timers.contains_key(at),
        timers[at].contains(id),
    ensures
        scheduled(timers, time, other).contains_key(at),
        scheduled(timers, time, other)[at].contains(id),
{
    let i = choose|i: int| 0 <= i < timers[at].len() && timers[at][i] == id;
    assert(scheduled(timers, time, other)[at][i] == id);
}

/// The timers that fire leave alone one that is not among them.
proof fn lemma_fired_keeps(
    state: LoopState,
    ids: Seq<ResourceId>,
    id: ResourceId,
    timer: Timer,
    at: Nanos,
)
    requires
        state.awaits(id, timer, at),
        !ids.contains(id),
    ensures
        state.fired_all(ids).0.awaits(id, timer, at),
    decreases ids.len(),
{
    if ids.len() > 0 {
        let less = ids.drop_last();
        let last = ids.last();
        assert(ids[ids.len() - 1] == last);
        assert(!less.contains(id)) by {
            if less.contains(id) {
                let i = choose|i: int| 0 <= i < less.len() && less[i] == id;
                assert(ids[i] == id);
            }
        }
        lemma_fired_keeps(state, less, id, timer, at);
        let before = state.fired_all(less).0;
        if before.holds(last, ResourceKind::Timer) {
            let time = (before.now + before.resources[last]->Timer_0.delay) as u128;
            lemma_still_scheduled(before.timers, time, last, at, id);
        }
    }
}

/// Closing resources has nothing to do with the scheduled timers.
proof fn lemma_closed_timers(state: LoopState, ids: Seq<ResourceId>)
    ensures
        state.closed_all(ids).0.timers == state.timers,
    decreases ids.len(),
{
    if ids.len() > 0 {
        lemma_closed_timers(state, ids.drop_last());
    }
}

/// A timer that waits for one instant waits for no other.
proof fn lemma_awaits_one(state: LoopState, id: ResourceId, timer: Timer, at: Nanos)
    requires
        state.wf(),
        state.keys_unique(),
        state.awaits(id, timer, at),
    ensures
        forall|other: Nanos, i: int| #[trigger]
            is_entry(state.timers, other, i, id) ==> other == at,
        exists|i: int| #[trigger] is_entry(state.timers, at, i, id),
{
    assert(state.holds(id, ResourceKind::Timer));
    let i = choose|i: int| 0 <= i < state.timers[at].len() && state.timers[at][i] == id;
    assert(is_entry(state.timers, at, i, id));
}

/// A timer is not among those that expire before its instant has passed.
proof fn lemma_not_due(state: LoopState, id: ResourceId, timer: Timer, at: Nanos)
    requires
        state.wf(),
        state.keys_unique(),
        state.awaits(id, timer, at),
        at >= state.now,
    ensures
        !expired_before(state.timers, state.now).contains(id),
{
    let due = expired_before(state.timers, state.now);
    lemma_awaits_one(state, id, timer, at);
    if due.contains(id) {
        let k = choose|k: int| 0 <= k < due.len() && due[k] == id;
        no_timer_expires_early(state.timers, state.now, k);
        let time = choose|time: Nanos| #[trigger]
            state.timers.contains_key(time) && time < state.now && state.timers[time].contains(id);
        let i = choose|i: int| 0 <= i < state.timers[time].len() && state.timers[time][i] == id;
        assert(is_entry(state.timers, time, i, id));
    }
}

/// A timer stays in the loop and keeps its instant until the timers fire after
/// the instant or it is canceled, whatever else happens, as long as no identifier
/// can have been given out twice.
pub proof fn timer_stays(state: LoopState, step: Step, id: ResourceId, timer: Timer, at: Nanos)
    requires
        state.wf(),
        state.keys_unique(),
        state.allows(step),
        state.awaits(id, timer, at),
        !state.disposes(step, timer, at),
    ensures
        state.stepped(step).0.awaits(id, timer, at),
{
    match step {
        Step::Timers => {
            let start = LoopState { timers: pending_from(state.timers, state.now), ..state };
            lemma_not_due(state, id, timer, at);
            lemma_fired_keeps(start, expired_before(state.timers, state.now), id, timer, at);
        },
        Step::Closes => {
            let start = LoopState { close_queue: Seq::empty(), ..state };
            lemma_not_closing(state, id);
            lemma_closed_spares(start, state.close_queue, id);
            lemma_closed_timers(start, state.close_queue);
        },
        Step::Serve(new) => {
            if let RequestView::TimerStart(other) = state.handle.requests[0] {
                let time = (state.now + other.delay) as u128;
                lemma_still_scheduled(state.timers, time, new, at, id);
            }
        },
        _ => {},
    }
}

/// The callback of a timer is not run before its instant has passed, and the
/// timer stays as long as it is not canceled.
proof fn lemma_quiet_until_due(
    state: LoopState,
    steps: Seq<Step>,
    id: ResourceId,
    timer: Timer,
    at: Nanos,
)
    requires
        state.wf(),
        state.allows_all(steps),
        state.awaits(id, timer, at),
        state.belongs(timer.callback, timer.id, ResourceKind::Timer),
        !state.hears_in(steps, timer.callback),
        !state.disposes_in(steps, timer, at),
        state.ran(steps).0.keys_unique(),
    ensures
        ({
            let (after, effects) = state.ran(steps);
            &&& call_count(effects, timer.callback) == 0
            &&& after.belongs(timer.callback, timer.id, ResourceKind::Timer)
            &&& after.awaits(id, timer, at)
        }),
    decreases steps.len(),
{
    if steps.len() > 0 {
        let less = steps.drop_last();
        let step = steps.last();
        run_keeps_loop_sound(state, less);
        let (before, effects) = state.ran(less);
        lemma_issued_grow(before, step);
        lemma_quiet_until_due(state, less, id, timer, at);
        timer_stays(before, step, id, timer, at);
        step_keeps_callback(
            before,
            step,
            timer.callback,
            known_as(timer.id, ResourceKind::Timer),
        );
        let more = before.stepped(step).1;
        if step is Timers {
            lemma_awaits_one(before, id, timer, at);
            timer_fires_once_per_iteration(before, id);
        } else {
            lemma_called_by_owner(before, step, timer.callback, timer.id, ResourceKind::Timer);
            lemma_no_calls(more, timer.callback);
        }
        lemma_calls_concat(effects, more, timer.callback);
    }
}

/// What fires in two parts fires one after the other.
proof fn lemma_fired_concat(state: LoopState, first: Seq<ResourceId>, second: Seq<ResourceId>)
    ensures
        state.fired_all(first + second).0 == state.fired_all(first).0.fired_all(second).0,
    decreases second.len(),
{
    if second.len() == 0 {
        assert(first + second =~= first);
    } else {
        lemma_fired_concat(state, first, second.drop_last());
        assert((first + second).drop_last() =~= first + second.drop_last());
    }
}

/// What becomes of a timer in the phase in which it fires: one that runs over and
/// over waits for its next instant, another is gone.
proof fn lemma_after_firing(state: LoopState, id: ResourceId, timer: Timer, at: Nanos)
    requires
        state.wf(),
        state.keys_unique(),
        state.awaits(id, timer, at),
        at < state.now,
    ensures
        ({
            let after = state.timers_run().0;
            match timer.kind {
                TimerKind::Interval => after.awaits(
                    id,
                    timer,
                    (state.now + timer.delay) as u128,
                ),
                TimerKind::Timeout => !after.resources.contains_key(id),
            }
        }),
{
    let due = expired_before(state.timers, state.now);
    let start = LoopState { timers: pending_from(state.timers, state.now), ..state };
    assert(state.holds(id, ResourceKind::Timer));
    passed_timer_expires(state.timers, state.now, at, id);
    lone_timer_expires_once(state.timers, state.now, id);
    let k = lemma_first_occurrence(due, id);
    let first = due.take(k);
    let rest = due.skip(k + 1);
    assert(!first.contains(id)) by {
        assert forall|i: int| 0 <= i < first.len() implies first[i] != id by {
            assert(due[i] != id);
        }
    }
    assert(!rest.contains(id)) by {
        if rest.contains(id) {
            let i = choose|i: int| 0 <= i < rest.len() && rest[i] == id;
            assert(due[k + 1 + i] == id);
        }
    }
    assert(due =~= first + seq![id] + rest);
    lemma_fired_concat(start, first + seq![id], rest);
    lemma_fired_concat(start, first, seq![id]);
    let before = start.fired_all(first).0;
    lemma_fired_spares(start, first, id);
    lemma_fired_now(start, first);
    reveal_with_fuel(LoopState::fired_all, 2);
    assert(seq![id].drop_last() =~= Seq::empty());
    let fired = before.fired(id).0;
    assert(before.fired_all(seq![id]).0 == fired);
    match timer.kind {
        TimerKind::Interval => {
            let time = (state.now + timer.delay) as u128;
            let timers = scheduled(before.timers, time, id);
            assert(timers[time][timers[time].len() - 1] == id);
            lemma_fired_keeps(fired, rest, id, timer, time);
        },
        TimerKind::Timeout => {
            lemma_fired_fewer(fired, rest);
        },
    }
}

/// Timers that fire do not change the time.
proof fn lemma_fired_now(state: LoopState, ids: Seq<ResourceId>)
    ensures
        state.fired_all(ids).0.now == state.now,
    decreases ids.len(),
{
    if ids.len() > 0 {
        lemma_fired_now(state, ids.drop_last());
    }
}

/// Timers that fire add no resource.
proof fn lemma_fired_fewer(state: LoopState, ids: Seq<ResourceId>)
    ensures
        forall|id: ResourceId| #[trigger]
            state.fired_all(ids).0.resources.contains_key(id) ==> state.resources.contains_key(id),
    decreases ids.len(),
{
    if ids.len() > 0 {
        lemma_fired_fewer(state, ids.drop_last());
        let before = state.fired_all(ids.drop_last()).0;
        assert forall|id: ResourceId| #[trigger] state.fired_all(ids).0.resources.contains_key(
            id,
        ) implies state.resources.contains_key(id) by {
            assert(before.resources.contains_key(id));
        }
    }
}

/// A timer that waits for an instant fires in the first timers phase after the
/// instant: its callback, if it is its own, is not run before and is run once
/// then, whatever else the loop goes through, unless the timer is canceled
/// before. One that runs over and over then waits for the instant a delay after
/// the time of the phase, another is gone. No identifier can have been given out
/// twice by then.
pub proof fn timer_fires_once_its_instant_has_passed(
    state: LoopState,
    id: ResourceId,
    timer: Timer,
    at: Nanos,
    until: Seq<Step>,
)
    requires
        state.wf(),
        state.awaits(id, timer, at),
        state.belongs(timer.callback, timer.id, ResourceKind::Timer),
        state.allows_all(until),
        !state.hears_in(until, timer.callback),
        !state.disposes_in(until, timer, at),
        state.ran(until).0.keys_unique(),
        at < state.ran(until).0.now,
    ensures
        ({
            let ready = state.ran(until).0;
            let (after, effects) = state.ran(until.push(Step::Timers));
            &&& call_count(state.ran(until).1, timer.callback) == 0
            &&& call_count(effects, timer.callback) == 1
            &&& match timer.kind {
                TimerKind::Interval => after.awaits(
                    id,
                    timer,
                    (ready.now + timer.delay) as u128,
                ),
                TimerKind::Timeout => !after.resources.contains_key(id),
            }
        }),
{
    let all = until.push(Step::Timers);
    assert(all.drop_last() =~= until);
    lemma_quiet_until_due(state, until, id, timer, at);
    run_keeps_loop_sound(state, until);
    let (ready, effects) = state.ran(until);
    lemma_awaits_one(ready, id, timer, at);
    timer_fires_once_per_iteration(ready, id);
    lemma_calls_concat(effects, ready.timers_run().1, timer.callback);
    lemma_after_firing(ready, id, timer, at);
}

/// A timer that is asked for fires in the first timers phase whose time lies
/// beyond its delay, counted from the time of the iteration in which its request
/// is served. Its callback is not run before, and once then, whatever else the
/// loop goes through, unless the timer is canceled before. No identifier can have
/// been given out twice by then.
pub proof fn requested_timer_fires_once_its_delay_has_passed(
    state: LoopState,
    i: int,
    timer: Timer,
    new: ResourceId,
    waiting: Seq<Step>,
    until: Seq<Step>,
)
    requires
        state.wf(),
        0 <= i < state.handle.requests.len(),
        state.handle.requests[i] == RequestView::TimerStart(timer),
        state.belongs(timer.callback, timer.id, ResourceKind::Timer),
        serve_count(waiting) == i,
        ({
            let starting = waiting.push(Step::Serve(new));
            let started = state.ran(starting).0;
            let at = (started.now + timer.delay) as u128;
            let ready = state.ran(starting + until).0;
            &&& state.allows_all(starting + until)
            &&& !state.hears_in(starting + until, timer.callback)
            &&& !started.disposes_in(until, timer, at)
            &&& ready.keys_unique()
            &&& started.now + timer.delay < ready.now
        }),
    ensures
        ({
            let starting = waiting.push(Step::Serve(new));
            let steps = (starting + until).push(Step::Timers);
            &&& call_count(state.ran(starting + until).1, timer.callback) == 0
            &&& call_count(state.ran(steps).1, timer.callback) == 1
        }),
{
    let callback = timer.callback;
    let serve = Step::Serve(new);
    let starting = waiting.push(serve);
    let steps = (starting + until).push(Step::Timers);
    runs_add_up(state, starting, until);
    lemma_hears_concat(state, starting, until, callback);
    assert(starting.drop_last() =~= waiting);
    // While the request waits.
    lemma_quiet_while_waiting(state, waiting, i, callback, ResourceKind::Timer);
    lemma_waits(state, waiting, i);
    run_keeps_loop_sound(state, waiting);
    let (ready, first) = state.ran(waiting);
    lemma_no_calls(first, callback);
    // The request is served.
    lemma_received(ready);
    timer_is_scheduled_after_its_delay(ready.received(), timer, new);
    step_keeps_loop_sound(ready, serve);
    step_keeps_callback(ready, serve, callback, known_as(timer.id, ResourceKind::Timer));
    let (started, second) = ready.stepped(serve);
    lemma_no_calls(second, callback);
    lemma_calls_concat(first, second, callback);
    // From then on.
    let at = (started.now + timer.delay) as u128;
    timer_fires_once_its_instant_has_passed(started, new, timer, at, until);
    lemma_calls_concat(first + second, started.ran(until).1, callback);
    assert(steps =~= starting + until.push(Step::Timers));
    runs_add_up(state, starting, until.push(Step::Timers));
    lemma_calls_concat(first + second, started.ran(until.push(Step::Timers)).1, callback);
}

} // verus!
