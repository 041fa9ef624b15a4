//! The way of a task: from its request through the thread-pool to its callback.

use crate::effect::{Effect, EffectView};
use crate::event_loop::calls::{
    call_count, calls, forgotten_callback_is_never_called, known_as, lemma_calls_concat,
    lemma_no_calls, lemma_owner, lemma_ownerless, step_keeps_callback,
};
use crate::event_loop::lemmas::lemma_not_closing;
use crate::event_loop::runs::{
    lemma_issued_grow, run_keeps_loop_sound, runs_add_up, step_keeps_loop_sound, Step,
};
use crate::event_loop::state::LoopState;
use crate::event_loop::waiting::{
    lemma_called_by_owner, lemma_closed_spares, lemma_hears_concat, lemma_quiet_while_waiting,
    lemma_waits, serve_count,
};
use crate::event_loop::{Event, RequestView};
use crate::resource::{CallbackId, ResourceId, ResourceKind, ResourceView, WorkId};
use crate::task::Task;
use crate::timers::{expired_before, pending_from};
use vstd::prelude::*;

verus! {

impl LoopState {
    /// Whether a step ends the stay of a task in the loop: it is reported or
    /// canceled.
    pub open spec fn ends(self, step: Step, id: ResourceId, task: Task) -> bool {
        ||| step == Step::Event(Event::ThreadPool(id))
        ||| step is Serve && self.handle.requests[0].cancels() == Some(task.id)
    }

    /// Whether some step of a run ends the stay of a task in the loop.
    pub open spec fn ends_in(self, steps: Seq<Step>, id: ResourceId, task: Task) -> bool
        decreases steps.len(),
    {
        steps.len() > 0 && (self.ends_in(steps.drop_last(), id, task) || self.ran(
            steps.drop_last(),
        ).0.ends(steps.last(), id, task))
    }
}

/// The timers that fire take no task with them.
proof fn lemma_fired_spares_task(state: LoopState, ids: Seq<ResourceId>, id: ResourceId)
    requires
        state.holds(id, ResourceKind::Task),
    ensures
        state.fired_all(ids).0.resources.contains_key(id),
        state.fired_all(ids).0.resources[id] == state.resources[id],
    decreases ids.len(),
{
    if ids.len() > 0 {
        lemma_fired_spares_task(state, ids.drop_last(), id);
    }
}

/// A task stays in the loop until it is reported or canceled, whatever else
/// happens, as long as no identifier can have been given out twice.
pub proof fn task_stays(state: LoopState, step: Step, id: ResourceId, task: Task)
    requires
        state.wf(),
        state.allows(step),
        state.resources.contains_key(id),
        state.resources[id] == ResourceView::Task(task),
        state.keys_unique(),
        !state.ends(step, id, task),
    ensures
        state.stepped(step).0.resources.contains_key(id),
        state.stepped(step).0.resources[id] == ResourceView::Task(task),
{
    match step {
        Step::Timers => {
            let start = LoopState { timers: pending_from(state.timers, state.now), ..state };
            lemma_fired_spares_task(start, expired_before(state.timers, state.now), id);
        },
        Step::Closes => {
            let start = LoopState { close_queue: Seq::empty(), ..state };
            lemma_not_closing(state, id);
            lemma_closed_spares(start, state.close_queue, id);
        },
        _ => {},
    }
}

/// The callback of a task is not run before the task is reported, and the task
/// stays as long as it is neither reported nor canceled.
proof fn lemma_quiet_while_working(
    state: LoopState,
    steps: Seq<Step>,
    id: ResourceId,
    task: Task,
    callback: CallbackId,
)
    requires
        state.wf(),
        state.allows_all(steps),
        state.resources.contains_key(id),
        state.resources[id] == ResourceView::Task(task),
        state.belongs(callback, task.id, ResourceKind::Task),
        !state.hears_in(steps, callback),
        !state.ends_in(steps, id, task),
        state.ran(steps).0.keys_unique(),
    ensures
        ({
            let (after, effects) = state.ran(steps);
            &&& !calls(effects, callback)
            &&& after.belongs(callback, task.id, ResourceKind::Task)
            &&& after.resources.contains_key(id)
            &&& after.resources[id] == ResourceView::Task(task)
        }),
    decreases steps.len(),
{
    if steps.len() > 0 {
        let less = steps.drop_last();
        let step = steps.last();
        run_keeps_loop_sound(state, less);
        let (before, effects) = state.ran(less);
        lemma_issued_grow(before, step);
        lemma_quiet_while_working(state, less, id, task, callback);
        task_stays(before, step, id, task);
        step_keeps_callback(before, step, callback, known_as(task.id, ResourceKind::Task));
        assert(before.id_of(task.id) == id);
        lemma_called_by_owner(before, step, callback, task.id, ResourceKind::Task);
        lemma_calls_concat(effects, before.stepped(step).1, callback);
    }
}

/// The request of a task hands its work to the thread-pool, once, on behalf of
/// the resource that it adds to the loop.
pub proof fn spawned_task_is_handed_over(
    state: LoopState,
    task: Task,
    work: WorkId,
    new: ResourceId,
)
    requires
        state.wf(),
        state.allows(Step::Serve(new)),
        state.handle.requests[0] == RequestView::TaskSpawn(task, work),
    ensures
        ({
            let (after, effects) = state.stepped(Step::Serve(new));
            &&& effects == seq![
                EffectView::Plain(Effect::SpawnWork(new, work, task.cancelation)),
            ]
            &&& after.resources.contains_key(new)
            &&& after.resources[new] == ResourceView::Task(task)
            &&& after.id_of(task.id) == new
            &&& after.pool.pending == state.pool.pending + 1
        }),
{
}

/// The report of a task runs its callback once, and the loop forgets it.
proof fn lemma_report(state: LoopState, id: ResourceId, task: Task, callback: CallbackId)
    requires
        state.wf(),
        state.resources.contains_key(id),
        state.resources[id] == ResourceView::Task(task),
        task.on_complete == Some(callback),
        state.belongs(callback, task.id, ResourceKind::Task),
        state.allows(Step::Event(Event::ThreadPool(id))),
    ensures
        ({
            let (after, effects) = state.stepped(Step::Event(Event::ThreadPool(id)));
            &&& call_count(effects, callback) == 1
            &&& after.forgot(callback)
        }),
{
    let step = Step::Event(Event::ThreadPool(id));
    let (after, effects) = state.stepped(step);
    reveal_with_fuel(call_count, 3);
    assert(effects.len() == 2);
    assert(effects.drop_last().drop_last().len() == 0);
    step_keeps_callback(state, step, callback, known_as(task.id, ResourceKind::Task));
    assert forall|other: ResourceId| #[trigger] after.resources.contains_key(
        other,
    ) implies !after.resources[other].has(callback) by {
        assert(state.resources.contains_key(other));
        if state.resources[other].has(callback) {
            lemma_owner(state, callback, task.id, ResourceKind::Task, other);
            lemma_owner(state, callback, task.id, ResourceKind::Task, id);
        }
    }
    assert forall|i: int| 0 <= i < after.handle.requests.len() implies (
    #[trigger] after.handle.requests[i]).starts() != Some(task.id) by {
        if state.handle.requests[i].starts() == Some(task.id) {
            assert(state.unlinked(task.id));
        }
    }
    lemma_ownerless(after, callback, task.id, ResourceKind::Task);
}

/// A task that is spawned with a callback leads to exactly one call of it: the
/// request waits for its turn, is served, which hands the work over to the
/// thread-pool, and a worker reports the task, which is not canceled before. The
/// callback runs once, with the report, whatever happens in between and after, as
/// long as no identifier can have been given out twice by then.
pub proof fn spawned_task_leads_to_one_call(
    state: LoopState,
    i: int,
    task: Task,
    work: WorkId,
    callback: CallbackId,
    new: ResourceId,
    waiting: Seq<Step>,
    working: Seq<Step>,
    later: Seq<Step>,
)
    requires
        state.wf(),
        0 <= i < state.handle.requests.len(),
        state.handle.requests[i] == RequestView::TaskSpawn(task, work),
        task.on_complete == Some(callback),
        state.belongs(callback, task.id, ResourceKind::Task),
        serve_count(waiting) == i,
        ({
            let spawning = waiting.push(Step::Serve(new));
            let reported = (spawning + working).push(Step::Event(Event::ThreadPool(new)));
            &&& state.allows_all(reported + later)
            &&& !state.hears_in(reported + later, callback)
            &&& !state.ran(spawning).0.ends_in(working, new, task)
            &&& state.ran(spawning + working).0.keys_unique()
        }),
    ensures
        ({
            let spawning = waiting.push(Step::Serve(new));
            let reported = (spawning + working).push(Step::Event(Event::ThreadPool(new)));
            &&& state.ran(spawning).1.last() == EffectView::Plain(
                Effect::SpawnWork(new, work, task.cancelation),
            )
            &&& call_count(state.ran(spawning + working).1, callback) == 0
            &&& call_count(state.ran(reported).1, callback) == 1
            &&& call_count(state.ran(reported + later).1, callback) == 1
        }),
{
    let serve = Step::Serve(new);
    let report = Step::Event(Event::ThreadPool(new));
    let spawning = waiting.push(serve);
    let reported = (spawning + working).push(report);
    runs_add_up(state, reported, later);
    lemma_hears_concat(state, reported, later, callback);
    assert(reported.drop_last() =~= spawning + working);
    runs_add_up(state, spawning, working);
    lemma_hears_concat(state, spawning, working, callback);
    assert(spawning.drop_last() =~= waiting);
    // While the request waits.
    lemma_quiet_while_waiting(state, waiting, i, callback, ResourceKind::Task);
    lemma_waits(state, waiting, i);
    run_keeps_loop_sound(state, waiting);
    let (ready, first) = state.ran(waiting);
    lemma_no_calls(first, callback);
    // The request is served.
    spawned_task_is_handed_over(ready, task, work, new);
    step_keeps_loop_sound(ready, serve);
    step_keeps_callback(ready, serve, callback, known_as(task.id, ResourceKind::Task));
    let (started, second) = ready.stepped(serve);
    lemma_no_calls(second, callback);
    lemma_calls_concat(first, second, callback);
    assert((first + second).last() == second[0]);
    // While the work is under way.
    lemma_quiet_while_working(started, working, new, task, callback);
    run_keeps_loop_sound(started, working);
    let (done, third) = started.ran(working);
    lemma_no_calls(third, callback);
    lemma_calls_concat(first + second, third, callback);
    // The report.
    lemma_report(done, new, task, callback);
    step_keeps_loop_sound(done, report);
    let (after, fourth) = done.stepped(report);
    lemma_calls_concat(first + second + third, fourth, callback);
    // Afterwards.
    forgotten_callback_is_never_called(after, later, callback);
    lemma_no_calls(after.ran(later).1, callback);
    lemma_calls_concat(state.ran(reported).1, after.ran(later).1, callback);
}

} // verus!
