//! What an index loop promises across its steps.

use crate::index_loop::lemmas::lemma_handle_used;
use crate::index_loop::read_buffer::BufferView;
use crate::index_loop::state::{HandleState, IndexState, SocketTurnView};
use crate::index_loop::{ActionView, Command, CommandView, Index, TimerWrap, WrapView};
use crate::resource::CallbackId;
use crate::tcp_stream::{bytes_of, ReadOutcomeView, SocketStatus};
use crate::timers::{
    earliest_exists, expired_before, no_timer_expires_early, passed_timer_expires,
    schedule_adds_one_entry, scheduled, Nanos, MAX_SPAN,
};
use vstd::prelude::*;

verus! {

/// A handle that gives indexes and schedules actions, as all of its methods do,
/// leaves the loop sound.
pub proof fn handle_keeps_loop_sound(state: IndexState, handle: HandleState)
    requires
        state.wf(),
        state.handle.used(handle),
    ensures
        (IndexState { handle, ..state }).wf(),
{
    lemma_handle_used(state, handle);
}

/// An action that starts nothing is a use of the handle.
pub proof fn action_uses_handle(handle: HandleState, action: ActionView)
    requires
        action.starts() is None,
    ensures
        handle.used(handle.queued(action)),
{
    let later = handle.queued(action);
    assert(later.actions.take(handle.actions.len() as int) =~= handle.actions);
}

/// To do nothing with a handle is a use of it, too.
pub proof fn idle_use_of_handle(handle: HandleState)
    ensures
        handle.used(handle),
{
    assert(handle.actions.take(handle.actions.len() as int) =~= handle.actions);
}

/// Giving an index is a use of the handle.
pub proof fn index_uses_handle(handle: HandleState)
    requires
        handle.index < u32::MAX,
    ensures
        handle.used(handle.indexed()),
{
    assert(handle.actions.take(handle.actions.len() as int) =~= handle.actions);
}

/// An action that starts something under an index that was just given is a use
/// of the handle.
pub proof fn start_uses_handle(handle: HandleState, action: ActionView)
    requires
        handle.index < u32::MAX,
        action.starts() == Some(handle.index),
        action is NewTimer ==> action->NewTimer_1.expires_at <= MAX_SPAN,
    ensures
        handle.used(handle.indexed().queued(action)),
{
    let later = handle.indexed().queued(action);
    assert(later.actions.take(handle.actions.len() as int) =~= handle.actions);
}

/// Several uses of a handle are one use.
pub proof fn uses_add_up(first: HandleState, second: HandleState, third: HandleState)
    requires
        first.used(second),
        second.used(third),
    ensures
        first.used(third),
{
    let count = first.actions.len();
    let middle = second.actions.len();
    assert forall|i: int| 0 <= i < middle implies #[trigger] third.actions[i]
        == second.actions[i] by {
        assert(third.actions.take(middle as int)[i] == third.actions[i]);
    }
    assert(third.actions.take(count as int) =~= second.actions.take(count as int));
    assert forall|i: int, j: int|
        count <= i < j < third.actions.len() && (
        #[trigger] third.actions[i]).starts() is Some implies third.actions[i].starts() != (
    #[trigger] third.actions[j]).starts() by {
        if i < middle {
            assert(second.actions[i].starts()->0 < second.index);
            if j < middle {
                assert(second.actions[j] == third.actions[j]);
            }
        }
    }
    assert forall|i: int|
        count <= i < third.actions.len() && (
        #[trigger] third.actions[i]).starts() is Some implies first.index
        <= third.actions[i].starts()->0 < third.index by {
        if i < middle {
            assert(second.actions[i].starts() is Some);
        }
    }
    assert forall|i: int|
        count <= i < third.actions.len() && (#[trigger] third.actions[i]) is NewTimer implies
        third.actions[i]->NewTimer_1.expires_at <= MAX_SPAN by {
        if i < middle {
            assert(second.actions[i] is NewTimer);
        }
    }
}

/// A timer that is added waits for its instant, beside any other that waits for
/// the same one: it is due once the instant has passed, and so is every other.
pub proof fn added_timer_becomes_due(
    state: IndexState,
    index: Index,
    timer: TimerWrap,
    now: Nanos,
    later: Nanos,
)
    requires
        state.wf(),
        state.admits(ActionView::NewTimer(index, timer)),
        now + timer.expires_at < later,
        now <= MAX_SPAN,
    ensures
        ({
            let after = state.acted(ActionView::NewTimer(index, timer), now).0;
            let due = expired_before(after.timer_queue, later);
            &&& due.contains(index)
            &&& forall|other: Index| #[trigger]
                expired_before(state.timer_queue, later).contains(other) ==> due.contains(other)
        }),
{
    let at = (now + timer.expires_at) as u128;
    let after = state.acted(ActionView::NewTimer(index, timer), now).0;
    schedule_adds_one_entry(state.timer_queue, at, index);
    assert(after.timer_queue[at][after.timer_queue[at].len() - 1] == index);
    passed_timer_expires(after.timer_queue, later, at, index);
    let before = expired_before(state.timer_queue, later);
    assert forall|other: Index| #[trigger] before.contains(other) implies expired_before(
        after.timer_queue,
        later,
    ).contains(other) by {
        let i = choose|i: int| 0 <= i < before.len() && before[i] == other;
        no_timer_expires_early(state.timer_queue, later, i);
        let queue = state.timer_queue;
        let time = choose|time: Nanos| #[trigger]
            queue.contains_key(time) && time < later && queue[time].contains(other);
        let k = choose|k: int|
            0 <= k < state.timer_queue[time].len() && state.timer_queue[time][k] == other;
        assert(after.timer_queue.contains_key(time) && after.timer_queue[time][k] == other);
        passed_timer_expires(after.timer_queue, later, time, other);
    }
}

/// A timer that repeats waits again once its callback has run; any other is
/// gone.
pub proof fn only_repeating_timers_stay(state: IndexState, index: Index, now: Nanos)
    requires
        state.wf(),
        state.resources.contains_key(index),
        state.resources[index] is Timer,
        now <= MAX_SPAN,
    ensures
        ({
            let timer = state.resources[index]->Timer_0;
            let after = state.timer_finished(index, now).0;
            let at = (now + timer.expires_at) as u128;
            if timer.repeat {
                &&& at == now + timer.expires_at
                &&& after.resources == state.resources
                &&& after.timer_queue.contains_key(at)
                &&& after.timer_queue[at].contains(index)
            } else {
                !after.resources.contains_key(index)
            }
        }),
{
    let timer = state.resources[index]->Timer_0;
    let queue = scheduled(state.timer_queue, (now + timer.expires_at) as u128, index);
    assert(queue[(now + timer.expires_at) as u128].last() == index);
}

/// As long as a timer waits, the poll phase does not block beyond its instant.
pub proof fn poll_does_not_outlast_a_timer(state: IndexState, now: Nanos, at: Nanos)
    requires
        state.timer_queue.contains_key(at),
    ensures
        state.poll_timeout(now) == 0 || now + state.poll_timeout(now) <= at,
{
    earliest_exists(state.timer_queue, at);
}

/// A task that is tracked is reported to its callback once.
pub proof fn finished_task_is_reported_once(state: IndexState, index: Index, callback: CallbackId)
    requires
        state.wf(),
        state.resources.contains_key(index),
        state.resources[index] == WrapView::Task(
            crate::index_loop::TaskWrap { inner: Some(callback) },
        ),
    ensures
        ({
            let (after, commands) = state.task_finished(index);
            &&& commands == seq![CommandView::Plain(Command::TaskCallback(callback))]
            &&& after.task_finished(index) == (after, Seq::<CommandView>::empty())
        }),
{
}

/// Nothing more happens to a connection that was closed.
pub proof fn closed_connection_is_silent(
    state: IndexState,
    index: Index,
    on_close: CallbackId,
    status: SocketStatus,
    buffer: BufferView,
)
    ensures
        ({
            let (after, commands) = state.acted(ActionView::CloseTcpSocket(index, on_close), 0);
            &&& commands.last() == CommandView::Plain(Command::CloseCallback(on_close))
            &&& after.write_turn(index, status) == (
                after,
                SocketTurnView::Done(Seq::<CommandView>::empty()),
            )
            &&& after.read_commands(index, buffer) == Seq::<CommandView>::empty()
        }),
{
}

/// What is queued for a connection is written in order: an entry goes to the end
/// of the queue, and the front of the queue is what is written next.
pub proof fn writes_are_taken_in_order(
    state: IndexState,
    index: Index,
    data: Seq<u8>,
    on_write: CallbackId,
)
    requires
        state.resources.contains_key(index),
        state.resources[index] is Tcp,
        state.resources[index]->Tcp_0.on_connection is None,
    ensures
        ({
            let before = state.resources[index]->Tcp_0;
            let asked = state.acted(ActionView::NewTcpWriteRequest(index, data, on_write), 0).0;
            let (after, turn) = asked.write_turn(index, SocketStatus::Healthy);
            let queue = before.write_queue.push((data, on_write));
            &&& turn == SocketTurnView::Write(before.socket, queue[0].0, queue[0].1)
            &&& after.resources[index]->Tcp_0.write_queue == queue.drop_first()
        }),
{
}

/// What a series of reads has put into a buffer.
pub open spec fn buffer_series(buffer: BufferView, outcomes: Seq<ReadOutcomeView>) -> BufferView
    decreases outcomes.len(),
{
    if outcomes.len() == 0 {
        buffer
    } else {
        buffer_series(buffer, outcomes.drop_last()).after(outcomes.last())
    }
}

/// A buffer collects all the bytes that a series of reads gives, in order.
pub proof fn buffer_collects_all_bytes(buffer: BufferView, outcomes: Seq<ReadOutcomeView>)
    ensures
        buffer_series(buffer, outcomes).data == buffer.data + bytes_of(outcomes),
    decreases outcomes.len(),
{
    if outcomes.len() > 0 {
        buffer_collects_all_bytes(buffer, outcomes.drop_last());
        assert(buffer_series(buffer, outcomes).data =~= buffer.data + bytes_of(outcomes));
    } else {
        assert(buffer.data + Seq::<u8>::empty() =~= buffer.data);
    }
}

/// A reader hears that there are no more bytes only if the other side is done.
pub proof fn no_end_without_an_end(state: IndexState, index: Index, buffer: BufferView, i: int)
    requires
        !buffer.eof,
        0 <= i < state.read_commands(index, buffer).len(),
    ensures
        !(state.read_commands(index, buffer)[i] matches CommandView::ReadCallback(_, _, Ok(data))
            && data.len() == 0),
{
}

/// There is something left to do exactly where there is a resource or an action
/// that was not performed yet. A task without a callback is no resource.
pub proof fn pending_work_is_live_work(state: IndexState)
    requires
        state.wf(),
    ensures
        state.pending() <==> {
            ||| exists|index: Index| #[trigger] state.resources.contains_key(index)
            ||| state.handle.actions.len() > 0
        },
        !IndexState::start().pending(),
{
    if !(exists|index: Index| #[trigger] state.resources.contains_key(index)) {
        assert(state.resources =~= Map::empty());
    }
}

} // verus!
