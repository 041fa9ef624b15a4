//! Everything that can happen to an index loop, step by step, and what holds over
//! whole runs.

use crate::index_loop::lemmas::{
    lemma_acted, lemma_due, lemma_fewer_resources, lemma_handle_used, lemma_replaced,
    lemma_started_alike, lemma_taken, lemma_timer_scheduled, lemma_unscheduled,
};
use crate::index_loop::state::{HandleState, IndexState};
use crate::index_loop::{ActionView, Event, Index, TcpEvent, TimerWrap, WrapView};
use crate::tcp_stream::SocketStatus;
use crate::timers::{
    all_but, expired_before, is_scheduled, lemma_all_but, lemma_kept_by_all_but,
    no_timer_expires_early, passed_timer_expires, pending_from, schedule_adds_one_entry, scheduled,
    unscheduled, Nanos, MAX_SPAN,
};
use vstd::prelude::*;

verus! {

/// One thing that happens to an index loop.
pub enum Step {
    /// The handle is used, and is afterwards as given.
    Use(HandleState),
    /// The next action is performed, at the given time.
    Perform(Nanos),
    /// The timers that have expired by the given time are taken off the queue.
    Timers(Nanos),
    /// The callback of a timer has run, by the given time.
    Finish(Index, Nanos),
    /// A task is finished.
    Task(Index),
    /// A socket is ready for writing.
    Write(Index, SocketStatus),
}

impl IndexState {
    /// Whether a step may be taken.
    pub open spec fn allows(self, step: Step) -> bool {
        match step {
            Step::Use(handle) => self.handle.used(handle),
            Step::Perform(now) => {
                &&& self.handle.actions.len() > 0
                &&& self.performable(self.handle.actions[0])
                &&& now <= MAX_SPAN
            },
            Step::Timers(_) => true,
            Step::Finish(index, now) => {
                &&& self.resources.contains_key(index)
                &&& self.resources[index] is Timer
                &&& now <= MAX_SPAN
            },
            Step::Task(index) => self.accepts(Event::ThreadPool(index), SocketStatus::Healthy),
            Step::Write(index, status) => self.accepts(
                Event::Network(TcpEvent::Write(index)),
                status,
            ),
        }
    }

    /// The loop after a step.
    pub open spec fn stepped(self, step: Step) -> IndexState {
        match step {
            Step::Use(handle) => IndexState { handle, ..self },
            Step::Perform(now) => self.taken().acted(self.handle.actions[0], now).0,
            Step::Timers(now) => self.expired(now),
            Step::Finish(index, now) => self.timer_finished(index, now).0,
            Step::Task(index) => self.task_finished(index).0,
            Step::Write(index, status) => self.write_turn(index, status).0,
        }
    }

    /// The timers that are due with a step.
    pub open spec fn due_with(self, step: Step) -> Seq<Index> {
        match step {
            Step::Timers(now) => expired_before(self.timer_queue, now),
            _ => Seq::empty(),
        }
    }

    /// Whether the steps may be taken one after the other.
    pub open spec fn allows_all(self, steps: Seq<Step>) -> bool
        decreases steps.len(),
    {
        steps.len() == 0 || (self.allows_all(steps.drop_last()) && self.ran(
            steps.drop_last(),
        ).0.allows(steps.last()))
    }

    /// The loop after a run, and the timers that were due with it.
    pub open spec fn ran(self, steps: Seq<Step>) -> (IndexState, Seq<Index>)
        decreases steps.len(),
    {
        if steps.len() == 0 {
            (self, Seq::empty())
        } else {
            let (before, due) = self.ran(steps.drop_last());
            (before.stepped(steps.last()), due + before.due_with(steps.last()))
        }
    }

    /// An index that was given, that nothing has and that nothing will have.
    pub open spec fn retired(self, index: Index) -> bool {
        &&& self.unused(index)
        &&& forall|i: int|
            0 <= i < self.handle.actions.len() ==> (#[trigger] self.handle.actions[i]).starts()
                != Some(index)
    }

    /// Whether a timer is in the loop and waits for an instant, and for no other.
    pub open spec fn awaits(self, index: Index, timer: TimerWrap, at: Nanos) -> bool {
        &&& self.resources.contains_key(index)
        &&& self.resources[index] == WrapView::Timer(timer)
        &&& self.timer_queue.contains_key(at)
        &&& self.timer_queue[at].contains(index)
        &&& forall|other: Nanos|
            other != at && #[trigger] self.timer_queue.contains_key(other)
                ==> !self.timer_queue[other].contains(index)
    }

    /// Whether a step ends the wait of a timer for an instant: it is due, is
    /// removed, or is taken for one whose callback has run.
    pub open spec fn disposes(self, step: Step, index: Index, at: Nanos) -> bool {
        match step {
            Step::Timers(now) => at < now,
            Step::Finish(other, _) => other == index,
            Step::Perform(_) => match self.handle.actions[0] {
                ActionView::RemoveTimer(other) => other == index,
                ActionView::CloseTcpSocket(other, _) => other == index,
                _ => false,
            },
            _ => false,
        }
    }

    /// Whether some step of a run ends the wait of a timer for an instant.
    pub open spec fn disposes_in(self, steps: Seq<Step>, index: Index, at: Nanos) -> bool
        decreases steps.len(),
    {
        steps.len() > 0 && (self.disposes_in(steps.drop_last(), index, at) || self.ran(
            steps.drop_last(),
        ).0.disposes(steps.last(), index, at))
    }
}

/// Every step keeps the loop sound.
pub proof fn step_keeps_loop_sound(state: IndexState, step: Step)
    requires
        state.wf(),
        state.allows(step),
    ensures
        state.stepped(step).wf(),
{
    match step {
        Step::Use(handle) => lemma_handle_used(state, handle),
        Step::Perform(now) => {
            lemma_taken(state);
            lemma_acted(state.taken(), state.handle.actions[0], now);
        },
        Step::Timers(now) => lemma_due(state, now),
        Step::Finish(index, now) => {
            let timer = state.resources[index]->Timer_0;
            if timer.repeat {
                lemma_timer_scheduled(state, index, (now + timer.expires_at) as u128);
            } else {
                lemma_fewer_resources(state, index);
            }
        },
        Step::Task(index) => {
            lemma_fewer_resources(state, index);
            let after = state.task_finished(index).0;
            lemma_started_alike(IndexState { resources: after.resources, ..state }, after);
            if state.resources.contains_key(index) {
                assert(state.tasks().contains(index));
            }
        },
        Step::Write(index, status) => {
            let after = state.write_turn(index, status).0;
            lemma_fewer_resources(state, index);
            if state.resources.contains_key(index) && after.resources.contains_key(index) {
                lemma_replaced(state, index, after.resources[index]);
                assert(after.resources =~= state.resources.insert(index, after.resources[index]));
            }
        },
    }
}

/// Every run keeps the loop sound.
pub proof fn run_keeps_loop_sound(state: IndexState, steps: Seq<Step>)
    requires
        state.wf(),
        state.allows_all(steps),
    ensures
        state.ran(steps).0.wf(),
    decreases steps.len(),
{
    if steps.len() > 0 {
        run_keeps_loop_sound(state, steps.drop_last());
        step_keeps_loop_sound(state.ran(steps.drop_last()).0, steps.last());
    }
}

/// What is not scheduled is not due.
proof fn lemma_not_due(queue: Map<Nanos, Seq<Index>>, now: Nanos, index: Index)
    requires
        queue.dom().finite(),
        !is_scheduled(queue, index),
    ensures
        !expired_before(queue, now).contains(index),
{
    let due = expired_before(queue, now);
    if due.contains(index) {
        let i = choose|i: int| 0 <= i < due.len() && due[i] == index;
        no_timer_expires_early(queue, now, i);
        assert(is_scheduled(queue, index));
    }
}

/// An index that is retired stays so.
proof fn lemma_still_retired(state: IndexState, step: Step, index: Index)
    requires
        state.wf(),
        state.allows(step),
        state.retired(index),
    ensures
        state.stepped(step).retired(index),
        !state.due_with(step).contains(index),
{
    let after = state.stepped(step);
    match step {
        Step::Use(handle) => {
            let count = state.handle.actions.len() as int;
            assert forall|i: int| 0 <= i < handle.actions.len() implies (
            #[trigger] handle.actions[i]).starts() != Some(index) by {
                if i < count {
                    assert(handle.actions.take(count)[i] == handle.actions[i]);
                    assert(state.handle.actions[i].starts() != Some(index));
                }
            }
        },
        Step::Perform(now) => {
            let action = state.handle.actions[0];
            assert(action.starts() != Some(index));
            assert forall|i: int| 0 <= i < after.handle.actions.len() implies (
            #[trigger] after.handle.actions[i]).starts() != Some(index) by {
                assert(after.handle.actions[i] == state.handle.actions[i + 1]);
            }
            match action {
                ActionView::NewTimer(other, timer) => {
                    let at = (now + timer.expires_at) as u128;
                    schedule_adds_one_entry(state.timer_queue, at, other);
                },
                ActionView::RemoveTimer(other) => lemma_unscheduled(state.timer_queue, other),
                _ => {},
            }
        },
        Step::Timers(now) => {
            lemma_not_due(state.timer_queue, now, index);
            if is_scheduled(after.timer_queue, index) {
                let at = choose|at: Nanos| #[trigger]
                    after.timer_queue.contains_key(at) && after.timer_queue[at].contains(index);
                assert(state.timer_queue.contains_key(at));
            }
        },
        Step::Finish(other, now) => {
            let at = (now + state.resources[other]->Timer_0.expires_at) as u128;
            schedule_adds_one_entry(state.timer_queue, at, other);
        },
        _ => {},
    }
}

/// An index that is retired is never due.
proof fn lemma_retired_is_never_due(state: IndexState, steps: Seq<Step>, index: Index)
    requires
        state.wf(),
        state.allows_all(steps),
        state.retired(index),
    ensures
        state.ran(steps).0.retired(index),
        !state.ran(steps).1.contains(index),
    decreases steps.len(),
{
    if steps.len() > 0 {
        let less = steps.drop_last();
        lemma_retired_is_never_due(state, less, index);
        run_keeps_loop_sound(state, less);
        let (before, due) = state.ran(less);
        lemma_still_retired(before, steps.last(), index);
        let more = before.due_with(steps.last());
        if (due + more).contains(index) {
            let i = choose|i: int| 0 <= i < (due + more).len() && (due + more)[i] == index;
            if i < due.len() {
                assert(due[i] == index);
            } else {
                assert(more[i - due.len()] == index);
            }
        }
    }
}

/// A timer that was removed is gone and never due again, whatever the loop goes
/// through.
pub proof fn removed_timer_is_never_due(
    state: IndexState,
    index: Index,
    now: Nanos,
    steps: Seq<Step>,
)
    requires
        state.wf(),
        state.resources.contains_key(index),
        state.acted(ActionView::RemoveTimer(index), now).0.allows_all(steps),
        now <= MAX_SPAN,
    ensures
        ({
            let after = state.acted(ActionView::RemoveTimer(index), now).0;
            &&& after.wf()
            &&& !after.resources.contains_key(index)
            &&& !after.ran(steps).0.resources.contains_key(index)
            &&& !after.ran(steps).1.contains(index)
        }),
{
    lemma_acted(state, ActionView::RemoveTimer(index), now);
    lemma_unscheduled(state.timer_queue, index);
    let after = state.acted(ActionView::RemoveTimer(index), now).0;
    assert forall|i: int| 0 <= i < after.handle.actions.len() implies (
    #[trigger] after.handle.actions[i]).starts() != Some(index) by {
        if state.handle.actions[i].starts() == Some(index) {
            assert(state.unused(index));
        }
    }
    lemma_retired_is_never_due(after, steps, index);
}

/// A timer stays in the loop and keeps its instant until it is due or removed,
/// whatever else happens.
pub proof fn timer_stays(state: IndexState, step: Step, index: Index, timer: TimerWrap, at: Nanos)
    requires
        state.wf(),
        state.allows(step),
        state.awaits(index, timer, at),
        !state.disposes(step, index, at),
    ensures
        state.stepped(step).awaits(index, timer, at),
        !state.due_with(step).contains(index),
{
    let after = state.stepped(step);
    let queue = state.timer_queue;
    match step {
        Step::Perform(now) => {
            let action = state.handle.actions[0];
            if action.starts() is Some {
                assert(state.unused(action.starts()->0));
            }
            match action {
                ActionView::NewTimer(other, added) => {
                    let time = (now + added.expires_at) as u128;
                    lemma_another_scheduled(queue, time, other, index);
                    assert(scheduled(queue, time, other).contains_key(at));
                },
                ActionView::RemoveTimer(other) => {
                    lemma_another_unscheduled(queue, other, index);
                    lemma_kept_by_all_but(queue[at], other, index);
                    assert(unscheduled(queue, other).contains_key(at));
                },
                _ => {},
            }
        },
        Step::Timers(now) => {
            let due = expired_before(queue, now);
            if due.contains(index) {
                let i = choose|i: int| 0 <= i < due.len() && due[i] == index;
                no_timer_expires_early(queue, now, i);
            }
            assert(pending_from(queue, now)[at] == queue[at]);
        },
        Step::Finish(other, now) => {
            let time = (now + state.resources[other]->Timer_0.expires_at) as u128;
            lemma_another_scheduled(queue, time, other, index);
        },
        _ => {},
    }
}

/// Scheduling another timer changes no instant of a timer.
proof fn lemma_another_scheduled(
    queue: Map<Nanos, Seq<Index>>,
    time: Nanos,
    other: Index,
    index: Index,
)
    requires
        other != index,
    ensures
        forall|at: Nanos|
            (#[trigger] scheduled(queue, time, other).contains_key(at) && scheduled(
                queue,
                time,
                other,
            )[at].contains(index)) == (queue.contains_key(at) && queue[at].contains(index)),
{
    let after = scheduled(queue, time, other);
    assert forall|at: Nanos| (#[trigger] after.contains_key(at) && after[at].contains(index)) == (
    queue.contains_key(at) && queue[at].contains(index)) by {
        if queue.contains_key(at) && queue[at].contains(index) {
            let i = choose|i: int| 0 <= i < queue[at].len() && queue[at][i] == index;
            assert(after[at][i] == index);
        }
        if after.contains_key(at) && after[at].contains(index) {
            let i = choose|i: int| 0 <= i < after[at].len() && after[at][i] == index;
            assert(queue.contains_key(at) && queue[at][i] == index);
        }
    }
}

/// Taking out another timer changes no instant of a timer.
proof fn lemma_another_unscheduled(queue: Map<Nanos, Seq<Index>>, other: Index, index: Index)
    requires
        other != index,
    ensures
        forall|at: Nanos|
            (#[trigger] unscheduled(queue, other).contains_key(at) && unscheduled(
                queue,
                other,
            )[at].contains(index)) == (queue.contains_key(at) && queue[at].contains(index)),
{
    let after = unscheduled(queue, other);
    assert forall|at: Nanos| (#[trigger] after.contains_key(at) && after[at].contains(index)) == (
    queue.contains_key(at) && queue[at].contains(index)) by {
        if queue.contains_key(at) && queue[at].contains(index) {
            lemma_kept_by_all_but(queue[at], other, index);
        }
        if after.contains_key(at) && after[at].contains(index) {
            let i = choose|i: int| 0 <= i < after[at].len() && after[at][i] == index;
            assert(after[at] == all_but(queue[at], other));
            lemma_all_but(queue[at], other, i);
        }
    }
}

/// A timer that waits for an instant stays and is not due as long as nothing ends
/// its wait.
proof fn lemma_timer_stays_in(
    state: IndexState,
    steps: Seq<Step>,
    index: Index,
    timer: TimerWrap,
    at: Nanos,
)
    requires
        state.wf(),
        state.allows_all(steps),
        state.awaits(index, timer, at),
        !state.disposes_in(steps, index, at),
    ensures
        state.ran(steps).0.awaits(index, timer, at),
        !state.ran(steps).1.contains(index),
    decreases steps.len(),
{
    if steps.len() > 0 {
        let less = steps.drop_last();
        lemma_timer_stays_in(state, less, index, timer, at);
        run_keeps_loop_sound(state, less);
        let (before, due) = state.ran(less);
        timer_stays(before, steps.last(), index, timer, at);
        let more = before.due_with(steps.last());
        if (due + more).contains(index) {
            let i = choose|i: int| 0 <= i < (due + more).len() && (due + more)[i] == index;
            if i < due.len() {
                assert(due[i] == index);
            } else {
                assert(more[i - due.len()] == index);
            }
        }
    }
}

/// A timer that is added is due the first time that the timers are taken off the
/// queue after its delay, and not before, whatever else the loop goes through,
/// unless it is removed before.
pub proof fn added_timer_is_due_once_its_delay_has_passed(
    state: IndexState,
    index: Index,
    timer: TimerWrap,
    now: Nanos,
    until: Seq<Step>,
    later: Nanos,
)
    requires
        state.wf(),
        state.admits(ActionView::NewTimer(index, timer)),
        now <= MAX_SPAN,
        now + timer.expires_at < later,
        ({
            let added = state.acted(ActionView::NewTimer(index, timer), now).0;
            &&& added.allows_all(until)
            &&& !added.disposes_in(until, index, (now + timer.expires_at) as u128)
        }),
    ensures
        ({
            let added = state.acted(ActionView::NewTimer(index, timer), now).0;
            let ready = added.ran(until).0;
            &&& !added.ran(until).1.contains(index)
            &&& ready.due_with(Step::Timers(later)).contains(index)
            &&& ready.resources.contains_key(index)
            &&& ready.resources[index] == WrapView::Timer(timer)
        }),
{
    let at = (now + timer.expires_at) as u128;
    let added = state.acted(ActionView::NewTimer(index, timer), now).0;
    lemma_acted(state, ActionView::NewTimer(index, timer), now);
    assert(added.timer_queue[at][added.timer_queue[at].len() - 1] == index);
    assert forall|other: Nanos| #[trigger] added.timer_queue.contains_key(other) && other
        != at implies !added.timer_queue[other].contains(index) by {
        if added.timer_queue[other].contains(index) {
            assert(state.timer_queue.contains_key(other));
            assert(is_scheduled(state.timer_queue, index));
        }
    }
    lemma_timer_stays_in(added, until, index, timer, at);
    run_keeps_loop_sound(added, until);
    passed_timer_expires(added.ran(until).0.timer_queue, later, at, index);
}

} // verus!
