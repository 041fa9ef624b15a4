//! What a resource goes through before it is in the loop: its request waits for
//! its turn.

use crate::event_loop::calls::{
    calls, known_as, lemma_calls_concat, lemma_owner, step_keeps_callback,
};
use crate::event_loop::lemmas::{
    lemma_closed_all, lemma_received, lemma_served, lemma_timers_run,
};
use crate::event_loop::runs::{run_keeps_loop_sound, runs_add_up, Step};
use crate::event_loop::state::LoopState;
use crate::event_loop::Event;
use crate::resource::{CallbackId, ResourceId, ResourceKind, SharedId};
use vstd::prelude::*;

verus! {

/// How many requests a run serves.
pub open spec fn serve_count(steps: Seq<Step>) -> nat
    decreases steps.len(),
{
    if steps.len() == 0 {
        0
    } else {
        serve_count(steps.drop_last()) + if steps.last() is Serve {
            1nat
        } else {
            0nat
        }
    }
}

/// A run hears of a callback if one of its parts does.
pub(crate) proof fn lemma_hears_concat(
    state: LoopState,
    first: Seq<Step>,
    second: Seq<Step>,
    callback: CallbackId,
)
    ensures
        state.hears_in(first + second, callback) == (state.hears_in(first, callback) || state.ran(
            first,
        ).0.hears_in(second, callback)),
    decreases second.len(),
{
    let all = first + second;
    if second.len() == 0 {
        assert(all =~= first);
    } else {
        let less = second.drop_last();
        assert(all.drop_last() =~= first + less);
        lemma_hears_concat(state, first, less, callback);
        runs_add_up(state, first, less);
    }
}

/// What is not closed stays.
pub(crate) proof fn lemma_closed_spares(state: LoopState, ids: Seq<ResourceId>, id: ResourceId)
    requires
        state.resources.contains_key(id),
        forall|i: int| 0 <= i < ids.len() ==> #[trigger] ids[i] != id,
    ensures
        state.closed_all(ids).0.resources.contains_key(id),
        state.closed_all(ids).0.resources[id] == state.resources[id],
    decreases ids.len(),
{
    if ids.len() > 0 {
        let less = ids.drop_last();
        assert forall|i: int| 0 <= i < less.len() implies #[trigger] less[i] != id by {
            assert(ids[i] != id);
        }
        lemma_closed_spares(state, less, id);
        assert(ids[ids.len() - 1] != id);
    }
}

/// A request waits for its turn: it is at the front once all that were made
/// before it have been served.
pub(crate) proof fn lemma_waits(state: LoopState, steps: Seq<Step>, i: int)
    requires
        state.wf(),
        state.allows_all(steps),
        0 <= i < state.handle.requests.len(),
        serve_count(steps) <= i,
    ensures
        ({
            let requests = state.ran(steps).0.handle.requests;
            let turn = i - serve_count(steps);
            turn < requests.len() && requests[turn] == state.handle.requests[i]
        }),
    decreases steps.len(),
{
    if steps.len() > 0 {
        let less = steps.drop_last();
        lemma_waits(state, less, i);
        run_keeps_loop_sound(state, less);
        let before = state.ran(less).0;
        let turn = i - serve_count(less);
        lemma_queue_moves(before, steps.last(), turn);
    }
}

/// A request moves to the front by one place with each that is served, and does
/// not move otherwise.
proof fn lemma_queue_moves(state: LoopState, step: Step, i: int)
    requires
        state.wf(),
        state.allows(step),
        0 <= i < state.handle.requests.len(),
        step is Serve ==> i > 0,
    ensures
        ({
            let requests = state.stepped(step).0.handle.requests;
            let turn = if step is Serve {
                i - 1
            } else {
                i
            };
            turn < requests.len() && requests[turn] == state.handle.requests[i]
        }),
{
    match step {
        Step::Use(handle) => {
            assert(handle.requests.take(state.handle.requests.len() as int)[i]
                == handle.requests[i]);
        },
        Step::Serve(id) => {
            lemma_received(state);
            lemma_served(state.received(), state.handle.requests[0], id);
        },
        Step::Timers => lemma_timers_run(state),
        Step::Closes => {
            let count = state.close_queue.len() as int;
            lemma_closed_all(state, count);
            assert(state.close_queue.take(count) =~= state.close_queue);
        },
        _ => {},
    }
}

/// The callback of a resource is not run while the request that adds it waits.
pub(crate) proof fn lemma_quiet_while_waiting(
    state: LoopState,
    steps: Seq<Step>,
    i: int,
    callback: CallbackId,
    kind: ResourceKind,
)
    requires
        state.wf(),
        state.allows_all(steps),
        0 <= i < state.handle.requests.len(),
        state.handle.requests[i].starts() is Some,
        state.belongs(callback, state.handle.requests[i].starts()->0, kind),
        serve_count(steps) <= i,
        !state.hears_in(steps, callback),
    ensures
        !calls(state.ran(steps).1, callback),
        state.ran(steps).0.belongs(callback, state.handle.requests[i].starts()->0, kind),
    decreases steps.len(),
{
    if steps.len() > 0 {
        let less = steps.drop_last();
        let step = steps.last();
        let shared = state.handle.requests[i].starts()->0;
        lemma_quiet_while_waiting(state, less, i, callback, kind);
        lemma_waits(state, less, i);
        run_keeps_loop_sound(state, less);
        let (before, effects) = state.ran(less);
        step_keeps_callback(before, step, callback, known_as(shared, kind));
        assert(before.unlinked(shared)) by {
            assert(before.handle.requests[i - serve_count(less)].starts() == Some(shared));
        }
        lemma_called_by_owner(before, step, callback, shared, kind);
        lemma_calls_concat(effects, before.stepped(step).1, callback);
    }
}

/// Only the owner of a callback can have it run, as its kind is run.
pub(crate) proof fn lemma_called_by_owner(
    state: LoopState,
    step: Step,
    callback: CallbackId,
    shared: SharedId,
    kind: ResourceKind,
)
    requires
        state.wf(),
        state.belongs(callback, shared, kind),
    ensures
        state.can_call(step, callback) ==> state.links.contains_key(shared) && match kind {
            ResourceKind::Timer => step == Step::Timers,
            ResourceKind::Check => step == Step::Checks,
            ResourceKind::Task => step == Step::Event(Event::ThreadPool(state.id_of(shared))),
            ResourceKind::FsEvent => step == Step::Event(Event::Watch(state.id_of(shared))),
            ResourceKind::FsWatcher => step == Step::Event(Event::FsWatch(state.id_of(shared))),
            ResourceKind::TtyReader => step == Step::Event(Event::TtyRead(state.id_of(shared))),
            _ => false,
        },
{
    if state.can_call(step, callback) {
        match step {
            Step::Timers => {
                let id = choose|id: ResourceId| #[trigger]
                    state.holds(id, ResourceKind::Timer) && state.resources[id].has(callback);
                lemma_owner(state, callback, shared, kind, id);
            },
            Step::Checks => {
                let id = choose|id: ResourceId| #[trigger]
                    state.holds(id, ResourceKind::Check) && state.resources[id].has(callback);
                lemma_owner(state, callback, shared, kind, id);
            },
            Step::Event(Event::ThreadPool(id)) | Step::Event(Event::Watch(id)) | Step::Event(
                Event::FsWatch(id),
            ) | Step::Event(Event::TtyRead(id)) => {
                lemma_owner(state, callback, shared, kind, id);
            },
            _ => {},
        }
    }
}

} // verus!
