//! Every step of an index loop keeps it sound.

use crate::index_loop::state::{HandleState, IndexState};
use crate::index_loop::{ActionView, Index, WrapView};
use crate::timers::{
    all_but, expired_before, is_scheduled, lemma_all_but, no_timer_expires_early, pending_from,
    schedule_adds_one_entry, scheduled, unscheduled, Nanos, MAX_SPAN,
};
use vstd::prelude::*;

verus! {

/// Loops that differ in nothing but the count of pending tasks are sound alike.
pub(crate) proof fn lemma_started_alike(state: IndexState, after: IndexState)
    requires
        state.indexes_sound(),
        state.times_sound(),
        after.resources == state.resources,
        after.timer_queue == state.timer_queue,
        after.handle.index == state.handle.index,
        after.handle.actions == state.handle.actions,
    ensures
        after.indexes_sound(),
        after.times_sound(),
        after.tasks() == state.tasks(),
{
    assert(after.tasks() =~= state.tasks());
    assert forall|i: int|
        0 <= i < after.handle.actions.len() && (
        #[trigger] after.handle.actions[i]).starts() is Some implies after.unused(
        after.handle.actions[i].starts()->0,
    ) by {
        assert(state.unused(state.handle.actions[i].starts()->0));
    }
}

/// Taking an action off the queue leaves a sound loop, which may perform the
/// action if it can.
pub(crate) proof fn lemma_taken(state: IndexState)
    requires
        state.wf(),
        state.handle.actions.len() > 0,
        state.performable(state.handle.actions[0]),
    ensures
        state.taken().wf(),
        state.taken().admits(state.handle.actions[0]),
{
    let after = state.taken();
    assert(after.tasks() =~= state.tasks());
    assert forall|i: int| 0 <= i < after.handle.actions.len() implies #[trigger]
        after.handle.actions[i] == state.handle.actions[i + 1] by {}
    assert forall|i: int|
        0 <= i < after.handle.actions.len() && (
        #[trigger] after.handle.actions[i]).starts() is Some implies after.unused(
        after.handle.actions[i].starts()->0,
    ) by {
        assert(state.unused(state.handle.actions[i + 1].starts()->0));
    }
    if state.handle.actions[0].starts() is Some {
        assert(state.unused(state.handle.actions[0].starts()->0));
        assert(after.unused(state.handle.actions[0].starts()->0));
    }
}

/// A resource that leaves the loop keeps it sound.
pub(crate) proof fn lemma_fewer_resources(state: IndexState, index: Index)
    requires
        state.wf(),
    ensures
        ({
            let after = IndexState { resources: state.resources.remove(index), ..state };
            &&& after.wf()
            &&& state.resources.contains_key(index) && state.resources[index] is Task
                ==> after.tasks().len() + 1 == state.tasks().len() && state.tasks().contains(index)
        }),
{
    let after = IndexState { resources: state.resources.remove(index), ..state };
    assert(after.tasks() =~= state.tasks().remove(index));
    assert(state.tasks().finite());
    assert forall|i: int|
        0 <= i < after.handle.actions.len() && (
        #[trigger] after.handle.actions[i]).starts() is Some implies after.unused(
        after.handle.actions[i].starts()->0,
    ) by {
        assert(state.unused(state.handle.actions[i].starts()->0));
    }
}

/// A connection may change.
pub(crate) proof fn lemma_replaced(state: IndexState, index: Index, wrap: WrapView)
    requires
        state.wf(),
        state.resources.contains_key(index),
        state.resources[index] is Tcp,
        wrap is Tcp,
    ensures
        (IndexState { resources: state.resources.insert(index, wrap), ..state }).wf(),
{
    let after = IndexState { resources: state.resources.insert(index, wrap), ..state };
    assert(after.tasks() =~= state.tasks());
    assert forall|i: int|
        0 <= i < after.handle.actions.len() && (
        #[trigger] after.handle.actions[i]).starts() is Some implies after.unused(
        after.handle.actions[i].starts()->0,
    ) by {
        assert(state.unused(state.handle.actions[i].starts()->0));
    }
}

/// A resource that joins the loop under an index of its own keeps it sound, as
/// long as a new task is counted.
proof fn lemma_added(state: IndexState, after: IndexState, index: Index, wrap: WrapView)
    requires
        state.wf(),
        state.unused(index),
        forall|i: int|
            0 <= i < state.handle.actions.len() ==> (#[trigger] state.handle.actions[i]).starts()
                != Some(index),
        wrap is Timer ==> wrap->Timer_0.expires_at <= MAX_SPAN,
        after == (IndexState {
            resources: state.resources.insert(index, wrap),
            pending_tasks: after.pending_tasks,
            ..state
        }),
        after.pending_tasks >= state.pending_tasks,
        wrap is Task ==> after.pending_tasks > state.pending_tasks,
    ensures
        after.wf(),
{
    if wrap is Task {
        assert(after.tasks() =~= state.tasks().insert(index));
    } else {
        assert(after.tasks() =~= state.tasks());
    }
    assert(state.tasks().finite());
    assert forall|i: int|
        0 <= i < after.handle.actions.len() && (
        #[trigger] after.handle.actions[i]).starts() is Some implies after.unused(
        after.handle.actions[i].starts()->0,
    ) by {
        assert(state.unused(state.handle.actions[i].starts()->0));
    }
}

/// A timer may be scheduled at any time.
pub(crate) proof fn lemma_timer_scheduled(state: IndexState, index: Index, at: Nanos)
    requires
        state.wf(),
        state.resources.contains_key(index),
        state.resources[index] is Timer,
    ensures
        (IndexState { timer_queue: scheduled(state.timer_queue, at, index), ..state }).wf(),
{
    let after = IndexState { timer_queue: scheduled(state.timer_queue, at, index), ..state };
    schedule_adds_one_entry(state.timer_queue, at, index);
    assert(after.tasks() =~= state.tasks());
    assert forall|i: int|
        0 <= i < after.handle.actions.len() && (
        #[trigger] after.handle.actions[i]).starts() is Some implies after.unused(
        after.handle.actions[i].starts()->0,
    ) by {
        assert(state.unused(state.handle.actions[i].starts()->0));
    }
}

/// Fewer entries in the timer queue keep a loop sound.
proof fn lemma_fewer_timers(state: IndexState, queue: Map<Nanos, Seq<Index>>)
    requires
        state.wf(),
        forall|index: Index| #[trigger]
            is_scheduled(queue, index) ==> is_scheduled(state.timer_queue, index),
        queue.dom().finite(),
    ensures
        (IndexState { timer_queue: queue, ..state }).wf(),
{
    let after = IndexState { timer_queue: queue, ..state };
    assert(after.tasks() =~= state.tasks());
    assert forall|i: int|
        0 <= i < after.handle.actions.len() && (
        #[trigger] after.handle.actions[i]).starts() is Some implies after.unused(
        after.handle.actions[i].starts()->0,
    ) by {
        assert(state.unused(state.handle.actions[i].starts()->0));
    }
}

/// What is left of a queue without a timer was there before, and the timer is
/// not among it.
pub(crate) proof fn lemma_unscheduled(queue: Map<Nanos, Seq<Index>>, index: Index)
    requires
        queue.dom().finite(),
    ensures
        unscheduled(queue, index).dom().finite(),
        !is_scheduled(unscheduled(queue, index), index),
        forall|other: Index| #[trigger]
            is_scheduled(unscheduled(queue, index), other) ==> is_scheduled(queue, other),
{
    let after = unscheduled(queue, index);
    assert(after.dom() =~= queue.dom().intersect(after.dom()));
    assert forall|other: Index| #[trigger] is_scheduled(after, other) implies other != index
        && is_scheduled(queue, other) by {
        let at = choose|at: Nanos| #[trigger] after.contains_key(at) && after[at].contains(other);
        let i = choose|i: int| 0 <= i < after[at].len() && after[at][i] == other;
        assert(queue.contains_key(at) && after[at] == all_but(queue[at], index));
        lemma_all_but(queue[at], index, i);
    }
}

/// Performing an action keeps the loop sound.
pub(crate) proof fn lemma_acted(state: IndexState, action: ActionView, now: Nanos)
    requires
        state.wf(),
        state.admits(action),
    ensures
        state.acted(action, now).0.wf(),
        state.acted(action, now).0.handle == state.handle,
{
    let after = state.acted(action, now).0;
    match action {
        ActionView::NewTimer(index, timer) => {
            let added = IndexState {
                resources: state.resources.insert(index, WrapView::Timer(timer)),
                ..state
            };
            lemma_added(state, added, index, WrapView::Timer(timer));
            lemma_timer_scheduled(added, index, (now + timer.expires_at) as u128);
        },
        ActionView::RemoveTimer(index) => {
            lemma_fewer_resources(state, index);
            let fewer = IndexState { resources: state.resources.remove(index), ..state };
            let queue = unscheduled(state.timer_queue, index);
            lemma_unscheduled(state.timer_queue, index);
            lemma_fewer_timers(fewer, queue);
        },
        ActionView::SpawnTask(index, _, task) => {
            if task.inner is Some {
                lemma_added(state, after, index, WrapView::Task(task));
            } else {
                lemma_started_alike(state, after);
            }
        },
        ActionView::NewTcpConnection(index, tcp) => {
            lemma_added(state, after, index, WrapView::Tcp(tcp));
        },
        ActionView::NewTcpWriteRequest(index, _, _) => {
            if state.resources.contains_key(index) {
                lemma_replaced(state, index, after.resources[index]);
            }
        },
        ActionView::NewTcpReadStart(index, _) => {
            if state.resources.contains_key(index) {
                lemma_replaced(state, index, after.resources[index]);
            }
        },
        ActionView::CloseTcpSocket(index, _) => {
            lemma_fewer_resources(state, index);
        },
    }
}

/// Taking out what is due keeps the loop sound, and whatever was due is a timer
/// or gone.
pub(crate) proof fn lemma_due(state: IndexState, now: Nanos)
    requires
        state.wf(),
    ensures
        state.expired(now).wf(),
        forall|i: int|
            0 <= i < expired_before(state.timer_queue, now).len() ==> state.is_timer(
                #[trigger] expired_before(state.timer_queue, now)[i],
            ),
{
    let queue = pending_from(state.timer_queue, now);
    assert(queue.dom() =~= state.timer_queue.dom().intersect(Set::new(|at: Nanos| at >= now)));
    assert forall|index: Index| #[trigger] is_scheduled(queue, index) implies is_scheduled(
        state.timer_queue,
        index,
    ) by {
        let at = choose|at: Nanos| #[trigger] queue.contains_key(at) && queue[at].contains(index);
        assert(state.timer_queue.contains_key(at));
    }
    lemma_fewer_timers(state, queue);
    let due = expired_before(state.timer_queue, now);
    assert forall|i: int| 0 <= i < due.len() implies state.is_timer(#[trigger] due[i]) by {
        no_timer_expires_early(state.timer_queue, now, i);
        assert(is_scheduled(state.timer_queue, due[i]));
    }
}

/// A handle that was used keeps the loop sound.
pub(crate) proof fn lemma_handle_used(state: IndexState, handle: HandleState)
    requires
        state.wf(),
        state.handle.used(handle),
    ensures
        (IndexState { handle, ..state }).wf(),
{
    let after = IndexState { handle, ..state };
    let count = state.handle.actions.len();
    assert(after.tasks() =~= state.tasks());
    assert forall|i: int| 0 <= i < count implies #[trigger] handle.actions[i]
        == state.handle.actions[i] by {
        assert(handle.actions.take(count as int)[i] == handle.actions[i]);
    }
    assert forall|i: int|
        0 <= i < handle.actions.len() && (
        #[trigger] handle.actions[i]).starts() is Some implies after.unused(
        handle.actions[i].starts()->0,
    ) by {
        if i < count {
            assert(state.unused(state.handle.actions[i].starts()->0));
        } else {
            let index = handle.actions[i].starts()->0;
            assert(state.handle.index <= index);
        }
    }
    assert forall|i: int, j: int|
        0 <= i < j < handle.actions.len() && (
        #[trigger] handle.actions[i]).starts() is Some implies handle.actions[i].starts() != (
    #[trigger] handle.actions[j]).starts() by {
        if i < count && j >= count {
            assert(state.unused(state.handle.actions[i].starts()->0));
        }
    }
}

} // verus!
