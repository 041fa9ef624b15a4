//! What every action, event and timer of an index loop leads to, in terms of its inputs
//! alone.

use crate::effect::Interest;
use crate::event_loop::Readiness;
use crate::index_loop::laws::buffer_series;
use crate::index_loop::read_buffer::BufferView;
use crate::index_loop::state::{HandleState, IndexState, SocketTurnView};
use crate::index_loop::{
    event_of, ActionView, Command, CommandView, Event, Index, Stage, TaskWrap, TcpEvent, TcpView,
    TimerWrap, Turn, WrapView,
};
use crate::resource::{CallbackId, ErrorId, WorkId};
use crate::tcp_stream::{
    end_of_a_series, last_error_of_a_series_counts, read_series, ReadOutcomeView, ReadView,
    SocketStatus,
};
use crate::timers::{is_earliest, lemma_all_but, lemma_kept_by_all_but, Nanos, MAX_SPAN};
use vstd::prelude::*;

verus! {

/// A socket that can be read from, or whose other side is done writing, gives an event to
/// read, unless it can be written to as well; one that can be written to alone gives an
/// event to write; any other gives none. The event is that of the index that the token
/// stands for.
pub proof fn every_readiness_gives_its_event(readiness: Readiness, index: Index)
    requires
        readiness.token == index,
    ensures
        (readiness.readable || readiness.read_closed) && !readiness.writable ==> event_of(readiness)
            == Some(TcpEvent::Read(index)),
        !readiness.readable && !readiness.read_closed && readiness.writable ==> event_of(readiness)
            == Some(TcpEvent::Write(index)),
        (readiness.readable || readiness.read_closed) && readiness.writable ==> event_of(readiness)
            is None,
        !readiness.readable && !readiness.read_closed && !readiness.writable ==> event_of(readiness)
            is None,
{
}

/// A timer that is added is in the loop as it was asked for, and is the last of those that
/// expire after its span. Nobody is called.
pub proof fn timer_waits_for_its_span(
    state: IndexState,
    index: Index,
    timer: TimerWrap,
    now: Nanos,
    at: Nanos,
)
    requires
        at == now + timer.expires_at,
    ensures
        ({
            let (after, commands) = state.acted(ActionView::NewTimer(index, timer), now);
            &&& commands.len() == 0
            &&& after.resources == state.resources.insert(index, WrapView::Timer(timer))
            &&& state.timer_queue.contains_key(at) ==> after.timer_queue
                == state.timer_queue.insert(at, state.timer_queue[at] + seq![index])
            &&& !state.timer_queue.contains_key(at) ==> after.timer_queue
                == state.timer_queue.insert(at, seq![index])
            &&& after.pending_tasks == state.pending_tasks
            &&& after.handle == state.handle
        }),
{
    if state.timer_queue.contains_key(at) {
        assert(state.timer_queue[at].push(index) =~= state.timer_queue[at] + seq![index]);
    }
}

/// A timer that is removed is forgotten, if it is there, and waits no longer, and nothing
/// else that waits or is there is touched.
pub proof fn removed_timer_is_forgotten(
    state: IndexState,
    index: Index,
    other: Index,
    now: Nanos,
    at: Nanos,
)
    requires
        other != index,
    ensures
        ({
            let (after, commands) = state.acted(ActionView::RemoveTimer(index), now);
            &&& state.resources.contains_key(index) ==> commands == seq![
                CommandView::Drop(state.resources[index]),
            ]
            &&& !state.resources.contains_key(index) ==> commands.len() == 0
            &&& after.resources == state.resources.remove(index)
            &&& after.timer_queue.contains_key(at) ==> !after.timer_queue[at].contains(index)
            &&& state.timer_queue.contains_key(at) && state.timer_queue[at].contains(other)
                ==> after.timer_queue.contains_key(at) && after.timer_queue[at].contains(other)
            &&& after.timer_queue.contains_key(at) && after.timer_queue[at].contains(other)
                ==> state.timer_queue.contains_key(at) && state.timer_queue[at].contains(other)
            &&& after.pending_tasks == state.pending_tasks
            &&& after.handle == state.handle
        }),
{
    let after = state.acted(ActionView::RemoveTimer(index), now).0;
    let list = state.timer_queue[at];
    if after.timer_queue.contains_key(at) {
        let left = after.timer_queue[at];
        assert forall|i: int| 0 <= i < left.len() implies left[i] != index && list.contains(
            #[trigger] left[i],
        ) by {
            lemma_all_but(list, index, i);
        }
    }
    if state.timer_queue.contains_key(at) && list.contains(other) {
        lemma_kept_by_all_but(list, index, other);
    }
}

/// A task that is spawned is handed over, on behalf of its index, and is tracked if somebody
/// waits for its result. One more task is pending.
pub proof fn task_is_handed_over_as_asked(
    state: IndexState,
    index: Index,
    work: WorkId,
    task: TaskWrap,
    now: Nanos,
)
    requires
        state.pending_tasks < u32::MAX,
    ensures
        ({
            let (after, commands) = state.acted(ActionView::SpawnTask(index, work, task), now);
            &&& commands == seq![CommandView::Plain(Command::Execute(index, work))]
            &&& after.pending_tasks == state.pending_tasks + 1
            &&& task.inner is Some ==> after.resources == state.resources.insert(
                index,
                WrapView::Task(task),
            )
            &&& task.inner is None ==> after.resources == state.resources
            &&& after.timer_queue == state.timer_queue
            &&& after.handle == state.handle
        }),
{
}

/// A connection that is attempted is in the loop as it was asked for, and its socket is
/// polled for writing, under its index.
pub proof fn connecting_socket_is_polled_for_writing(
    state: IndexState,
    index: Index,
    tcp: TcpView,
    now: Nanos,
)
    ensures
        ({
            let (after, commands) = state.acted(ActionView::NewTcpConnection(index, tcp), now);
            &&& commands == seq![
                CommandView::Plain(
                    Command::Register(tcp.socket, tcp.id as usize, Interest::Writable),
                ),
            ]
            &&& after.resources == state.resources.insert(index, WrapView::Tcp(tcp))
            &&& after.timer_queue == state.timer_queue
            &&& after.pending_tasks == state.pending_tasks
            &&& after.handle == state.handle
        }),
{
}

/// A write to a connection goes behind those that wait already, and its socket is polled for
/// both reading and writing. A write to one that is gone forgets its callback. Nothing else
/// changes.
pub proof fn write_waits_behind_the_others(
    state: IndexState,
    index: Index,
    tcp: TcpView,
    data: Seq<u8>,
    on_write: CallbackId,
    now: Nanos,
)
    ensures
        ({
            let action = ActionView::NewTcpWriteRequest(index, data, on_write);
            let (after, commands) = state.acted(action, now);
            let queue = tcp.write_queue + seq![(data, on_write)];
            &&& state.resources.contains_key(index) && state.resources[index] == WrapView::Tcp(tcp)
                ==> {
                &&& commands == seq![
                    CommandView::Plain(
                        Command::Reregister(tcp.socket, index as usize, Interest::Both),
                    ),
                ]
                &&& after.resources == state.resources.insert(
                    index,
                    WrapView::Tcp(TcpView { write_queue: queue, ..tcp }),
                )
            }
            &&& !state.resources.contains_key(index) ==> {
                &&& commands == seq![CommandView::Plain(Command::Release(on_write))]
                &&& after.resources == state.resources
            }
            &&& after.timer_queue == state.timer_queue
            &&& after.pending_tasks == state.pending_tasks
            &&& after.handle == state.handle
        }),
{
    let queue = tcp.write_queue;
    assert(queue.push((data, on_write)) =~= queue + seq![(data, on_write)]);
}

/// A reader takes the place of the former one of the connection, which is forgotten, and its
/// socket is polled for reading, and for writing too if something waits to be written. A
/// reader of a connection that is gone is forgotten. Nothing else changes.
pub proof fn reader_takes_over(
    state: IndexState,
    index: Index,
    tcp: TcpView,
    on_read: CallbackId,
    now: Nanos,
)
    ensures
        ({
            let (after, commands) = state.acted(ActionView::NewTcpReadStart(index, on_read), now);
            let interest = if tcp.write_queue.len() == 0 {
                Interest::Readable
            } else {
                Interest::Both
            };
            let polled = CommandView::Plain(
                Command::Reregister(tcp.socket, index as usize, interest),
            );
            &&& state.resources.contains_key(index) && state.resources[index] == WrapView::Tcp(tcp)
                ==> {
                &&& tcp.on_read is None ==> commands == seq![polled]
                &&& tcp.on_read is Some ==> commands == seq![
                    CommandView::Plain(Command::Release(tcp.on_read->0)),
                    polled,
                ]
                &&& after.resources == state.resources.insert(
                    index,
                    WrapView::Tcp(TcpView { on_read: Some(on_read), ..tcp }),
                )
            }
            &&& !state.resources.contains_key(index) ==> {
                &&& commands == seq![CommandView::Plain(Command::Release(on_read))]
                &&& after.resources == state.resources
            }
            &&& after.timer_queue == state.timer_queue
            &&& after.pending_tasks == state.pending_tasks
            &&& after.handle == state.handle
        }),
{
}

/// A connection that is closed is forgotten, and its close callback is called after that.
/// Nothing else changes.
pub proof fn closed_connection_is_forgotten(
    state: IndexState,
    index: Index,
    on_close: CallbackId,
    now: Nanos,
)
    requires
        state.resources.contains_key(index),
    ensures
        ({
            let (after, commands) = state.acted(ActionView::CloseTcpSocket(index, on_close), now);
            &&& commands == seq![
                CommandView::Drop(state.resources[index]),
                CommandView::Plain(Command::CloseCallback(on_close)),
            ]
            &&& after.resources == state.resources.remove(index)
            &&& after.timer_queue == state.timer_queue
            &&& after.pending_tasks == state.pending_tasks
            &&& after.handle == state.handle
        }),
{
}

/// An action touches no resource but that of its index.
pub proof fn action_touches_one_resource(
    state: IndexState,
    action: ActionView,
    now: Nanos,
    other: Index,
)
    requires
        match action {
            ActionView::NewTimer(index, _) | ActionView::RemoveTimer(index)
            | ActionView::SpawnTask(index, _, _) | ActionView::NewTcpConnection(index, _)
            | ActionView::NewTcpWriteRequest(index, _, _) | ActionView::NewTcpReadStart(index, _)
            | ActionView::CloseTcpSocket(index, _) => index != other,
        },
    ensures
        ({
            let after = state.acted(action, now).0;
            &&& after.resources.contains_key(other) <==> state.resources.contains_key(other)
            &&& state.resources.contains_key(other) ==> after.resources[other]
                == state.resources[other]
        }),
{
}

/// An action is performed unless it is to write to or to read from something that is no
/// connection, to close what is not there, or to spawn a task where no more can be counted.
pub proof fn action_is_performed_where_it_can_be(
    state: IndexState,
    index: Index,
    data: Seq<u8>,
    callback: CallbackId,
    work: WorkId,
    task: TaskWrap,
    timer: TimerWrap,
    tcp: TcpView,
)
    ensures
        ({
            let there = state.resources.contains_key(index);
            let usable = !there || state.resources[index] is Tcp;
            &&& state.performable(ActionView::NewTimer(index, timer))
            &&& state.performable(ActionView::RemoveTimer(index))
            &&& state.performable(ActionView::NewTcpConnection(index, tcp))
            &&& state.performable(ActionView::SpawnTask(index, work, task)) <==> state.pending_tasks
                < u32::MAX
            &&& state.performable(ActionView::NewTcpWriteRequest(index, data, callback)) <==> usable
            &&& state.performable(ActionView::NewTcpReadStart(index, callback)) <==> usable
            &&& state.performable(ActionView::CloseTcpSocket(index, callback)) <==> there
        }),
{
}

/// A timer whose callback has run waits for its span again if it repeats, behind those that
/// expire at the same instant, and is forgotten if it does not. Nothing else changes.
pub proof fn timer_repeats_if_asked_to(
    state: IndexState,
    index: Index,
    timer: TimerWrap,
    now: Nanos,
    at: Nanos,
)
    requires
        state.resources.contains_key(index),
        state.resources[index] == WrapView::Timer(timer),
        at == now + timer.expires_at,
    ensures
        ({
            let (after, commands) = state.timer_finished(index, now);
            &&& timer.repeat ==> {
                &&& commands.len() == 0
                &&& after.resources == state.resources
                &&& state.timer_queue.contains_key(at) ==> after.timer_queue
                    == state.timer_queue.insert(at, state.timer_queue[at] + seq![index])
                &&& !state.timer_queue.contains_key(at) ==> after.timer_queue
                    == state.timer_queue.insert(at, seq![index])
            }
            &&& !timer.repeat ==> {
                &&& commands == seq![CommandView::Drop(WrapView::Timer(timer))]
                &&& after.resources == state.resources.remove(index)
                &&& after.timer_queue == state.timer_queue
            }
            &&& after.pending_tasks == state.pending_tasks
            &&& after.handle == state.handle
        }),
{
    if state.timer_queue.contains_key(at) {
        assert(state.timer_queue[at].push(index) =~= state.timer_queue[at] + seq![index]);
    }
}

/// The timers that have expired wait no longer, and the others wait as they did.
pub proof fn expired_timers_wait_no_longer(state: IndexState, now: Nanos, at: Nanos)
    ensures
        ({
            let after = state.expired(now);
            &&& after.timer_queue.contains_key(at) <==> state.timer_queue.contains_key(at) && at
                >= now
            &&& after.timer_queue.contains_key(at) ==> after.timer_queue[at]
                == state.timer_queue[at]
            &&& after.resources == state.resources
            &&& after.pending_tasks == state.pending_tasks
            &&& after.handle == state.handle
        }),
{
}

/// Polling waits exactly until the instant of the next timer, not at all if that has come.
/// Where no timer waits, it waits for as long as it can if tasks are running, and not at all
/// if none is.
pub proof fn poll_waits_for_the_next_timer(state: IndexState, now: Nanos, at: Nanos)
    ensures
        state.timer_queue.contains_key(at) && (forall|other: Nanos| #[trigger]
            state.timer_queue.contains_key(other) ==> at <= other) ==> {
            &&& at > now ==> state.poll_timeout(now) == at - now
            &&& at <= now ==> state.poll_timeout(now) == 0
        },
        (forall|other: Nanos| !#[trigger] state.timer_queue.contains_key(other)) ==> {
            &&& state.pending_tasks > 0 ==> state.poll_timeout(now) == MAX_SPAN
            &&& state.pending_tasks == 0 ==> state.poll_timeout(now) == 0
        },
{
    if state.timer_queue.contains_key(at) && (forall|other: Nanos| #[trigger]
        state.timer_queue.contains_key(other) ==> at <= other) {
        assert(is_earliest(state.timer_queue, at));
    }
}

/// A wake-up is always taken. The report of a worker is taken unless it names something else
/// than a task. An event of the network is taken if its connection is gone, and otherwise if
/// it is for a connection that somebody reads, or that can be written to: one that has failed
/// only while its attempt is not reported yet.
pub proof fn events_are_taken_where_they_belong(
    state: IndexState,
    index: Index,
    tcp: TcpView,
    status: SocketStatus,
)
    ensures
        ({
            let there = state.resources.contains_key(index);
            let connection = there && state.resources[index] == WrapView::Tcp(tcp);
            &&& state.accepts(Event::Interrupt, status)
            &&& !there ==> {
                &&& state.accepts(Event::ThreadPool(index), status)
                &&& state.accepts(Event::Network(TcpEvent::Read(index)), status)
                &&& state.accepts(Event::Network(TcpEvent::Write(index)), status)
            }
            &&& there ==> (state.accepts(Event::ThreadPool(index), status)
                <==> state.resources[index] is Task)
            &&& there && !(state.resources[index] is Tcp) ==> {
                &&& !state.accepts(Event::Network(TcpEvent::Read(index)), status)
                &&& !state.accepts(Event::Network(TcpEvent::Write(index)), status)
            }
            &&& connection ==> {
                &&& state.accepts(Event::Network(TcpEvent::Read(index)), status)
                    <==> tcp.on_read is Some
                &&& state.accepts(Event::Network(TcpEvent::Write(index)), status) <==> (status
                    is Failed ==> tcp.on_connection is Some)
            }
        }),
{
}

/// A task that is finished is reported to whoever waits for it, is no longer tracked and no
/// longer pending. The report of one that is not tracked changes nothing.
pub proof fn finished_task_is_forgotten(state: IndexState, index: Index, task: TaskWrap)
    ensures
        ({
            let (after, commands) = state.task_finished(index);
            &&& state.resources.contains_key(index) && state.resources[index] == WrapView::Task(
                task,
            ) && state.pending_tasks > 0 ==> {
                &&& task.inner is Some ==> commands == seq![
                    CommandView::Plain(Command::TaskCallback(task.inner->0)),
                ]
                &&& task.inner is None ==> commands.len() == 0
                &&& after.resources == state.resources.remove(index)
                &&& after.pending_tasks == state.pending_tasks - 1
            }
            &&& !state.resources.contains_key(index) ==> commands.len() == 0 && after == state
            &&& after.timer_queue == state.timer_queue
            &&& after.handle == state.handle
        }),
{
}

/// A connection whose attempt has failed is reported with the error, once, and forgotten.
pub proof fn failed_connection_is_forgotten(
    state: IndexState,
    index: Index,
    tcp: TcpView,
    callback: CallbackId,
    error: ErrorId,
)
    requires
        state.resources.contains_key(index),
        state.resources[index] == WrapView::Tcp(tcp),
        tcp.on_connection == Some(callback),
    ensures
        ({
            let (after, turn) = state.write_turn(index, SocketStatus::Failed(error));
            &&& turn == SocketTurnView::Done(
                seq![
                    CommandView::Plain(Command::ConnectionCallback(callback, index, Err(error))),
                    CommandView::Drop(WrapView::Tcp(TcpView { on_connection: None, ..tcp })),
                ],
            )
            &&& after == (IndexState { resources: state.resources.remove(index), ..state })
        }),
{
}

/// A healthy connection is reported first, and only then written to: what waits stays as it
/// is meanwhile. Afterwards its writes are taken off the queue one by one, from the front,
/// and nothing is done once the queue is empty.
pub proof fn healthy_connection_is_reported_and_written_to(
    state: IndexState,
    index: Index,
    tcp: TcpView,
)
    requires
        state.resources.contains_key(index),
        state.resources[index] == WrapView::Tcp(tcp),
    ensures
        ({
            let (after, turn) = state.write_turn(index, SocketStatus::Healthy);
            let written = after.resources[index]->Tcp_0;
            &&& after == (IndexState {
                resources: state.resources.insert(index, WrapView::Tcp(written)),
                ..state
            })
            &&& written == (TcpView {
                on_connection: None,
                write_queue: written.write_queue,
                ..tcp
            })
            &&& tcp.on_connection is Some ==> {
                &&& turn == SocketTurnView::Connected(tcp.socket, tcp.on_connection->0)
                &&& written.write_queue == tcp.write_queue
            }
            &&& tcp.on_connection is None && tcp.write_queue.len() > 0 ==> {
                let (data, callback) = tcp.write_queue[0];
                &&& turn == SocketTurnView::Write(tcp.socket, data, callback)
                &&& seq![(data, callback)] + written.write_queue == tcp.write_queue
            }
            &&& tcp.on_connection is None && tcp.write_queue.len() == 0 ==> {
                &&& turn == SocketTurnView::Done(Seq::<CommandView>::empty())
                &&& after == state
            }
        }),
{
    let (after, turn) = state.write_turn(index, SocketStatus::Healthy);
    if tcp.on_connection is None && tcp.write_queue.len() > 0 {
        assert(seq![tcp.write_queue[0]] + tcp.write_queue.drop_first() =~= tcp.write_queue);
    }
    assert(state.resources.insert(index, state.resources[index]) =~= state.resources);
}

/// A reader hears of a read that has failed once, with the error, whatever else was read;
/// otherwise, once, of all bytes, or of none if there are none and the other side is done;
/// and of nothing if there is nothing to hear.
pub proof fn reader_hears_what_was_read(
    state: IndexState,
    index: Index,
    tcp: TcpView,
    callback: CallbackId,
    buffer: BufferView,
)
    requires
        state.resources.contains_key(index),
        state.resources[index] == WrapView::Tcp(tcp),
        tcp.on_read == Some(callback),
    ensures
        ({
            let commands = state.read_commands(index, buffer);
            &&& buffer.error is Some ==> commands == seq![
                CommandView::ReadCallback(callback, index, Err(buffer.error->0)),
            ]
            &&& buffer.error is None && (buffer.data.len() > 0 || buffer.eof) ==> commands == seq![
                CommandView::ReadCallback(callback, index, Ok(buffer.data)),
            ]
            &&& buffer.error is None && buffer.data.len() == 0 && !buffer.eof ==> commands.len()
                == 0
        }),
{
}

/// A series of reads has failed if one of its reads has, with the error of the last that has;
/// it has come to the end if one of them gave no bytes; and it is over if one did or would
/// have blocked.
pub proof fn buffer_knows_how_the_reads_went(outcomes: Seq<ReadOutcomeView>)
    ensures
        ({
            let buffer = buffer_series(BufferView::start(), outcomes);
            let ended = exists|k: int|
                0 <= k < outcomes.len() && (#[trigger] outcomes[k]) is Data
                    && outcomes[k]->Data_0.len() == 0;
            let blocked = exists|k: int|
                0 <= k < outcomes.len() && (#[trigger] outcomes[k]) is WouldBlock;
            &&& buffer.eof <==> ended
            &&& buffer.done <==> ended || blocked
            &&& match buffer.error {
                Some(error) => exists|k: int|
                    {
                        &&& 0 <= k < outcomes.len()
                        &&& #[trigger] outcomes[k] == ReadOutcomeView::Failed(error)
                        &&& forall|j: int|
                            k < j < outcomes.len() ==> !(#[trigger] outcomes[j] is Failed)
                    },
                None => forall|k: int|
                    0 <= k < outcomes.len() ==> !(#[trigger] outcomes[k] is Failed),
            }
        }),
{
    lemma_read_alike(outcomes);
    end_of_a_series(outcomes);
    last_error_of_a_series_counts(outcomes);
}

/// A buffer keeps track of a series of reads as a stream does.
proof fn lemma_read_alike(outcomes: Seq<ReadOutcomeView>)
    ensures
        ({
            let buffer = buffer_series(BufferView::start(), outcomes);
            let progress = read_series(ReadView::start(), outcomes);
            &&& buffer.error == progress.error
            &&& buffer.eof == progress.eof
            &&& buffer.done == progress.done
        }),
    decreases outcomes.len(),
{
    if outcomes.len() > 0 {
        lemma_read_alike(outcomes.drop_last());
    }
}

/// A buffer that was filled up is extended, and one that was not is left as it is, so that a
/// read always has room for a byte.
pub proof fn full_buffer_is_extended(buffer: BufferView, data: Seq<u8>)
    requires
        buffer.data.len() + data.len() <= buffer.capacity,
    ensures
        ({
            let after = buffer.after(ReadOutcomeView::Data(data));
            &&& data.len() > 0 && buffer.data.len() + data.len() == buffer.capacity
                ==> after.capacity == buffer.capacity + 1024
            &&& buffer.data.len() + data.len() < buffer.capacity ==> after.capacity
                == buffer.capacity
            &&& after.data == buffer.data + data
            &&& data.len() > 0 ==> after.error == buffer.error && after.eof == buffer.eof
                && after.done == buffer.done
        }),
        BufferView::start().capacity == 4096,
        BufferView::start().data.len() == 0,
{
    if data.len() == 0 {
        assert(buffer.data + data =~= buffer.data);
    }
}

/// The stages of a tick follow one another, and each comes once.
pub proof fn stages_follow_in_order()
    ensures
        Stage::Prepare.next() == Stage::Timers,
        Stage::Timers.next() == Stage::Poll,
        Stage::Poll.next() == Stage::Done,
        Stage::Done.next() == Stage::Done,
{
}

/// The actions are performed at the start of a tick, after the timers and after every event
/// but a wake-up, and at no other time.
pub proof fn actions_have_their_turns(index: Index, event: TcpEvent)
    ensures
        Turn::Stage(Stage::Prepare).performs(),
        Turn::Stage(Stage::Timers).performs(),
        !Turn::Stage(Stage::Poll).performs(),
        !Turn::Stage(Stage::Done).performs(),
        Turn::Event(Event::ThreadPool(index)).performs(),
        Turn::Event(Event::Network(event)).performs(),
        !Turn::Event(Event::Interrupt).performs(),
{
}

/// An action goes behind those that wait, the next is taken from the front, and an index that
/// is given is the next number. Whether actions wait is always known.
pub proof fn actions_wait_in_line(handle: HandleState, action: ActionView)
    ensures
        handle.queued(action).actions == handle.actions + seq![action],
        !handle.queued(action).queue_empty,
        handle.queued(action).index == handle.index,
        handle.actions.len() > 0 ==> {
            &&& seq![handle.actions[0]] + handle.taken().actions == handle.actions
            &&& handle.taken().queue_empty <==> handle.actions.len() == 1
            &&& handle.taken().index == handle.index
        },
        handle.index < u32::MAX ==> handle.indexed().index == handle.index + 1,
        handle.indexed().actions == handle.actions,
        handle.indexed().queue_empty == handle.queue_empty,
        HandleState::start().index == 1,
        HandleState::start().actions.len() == 0,
        HandleState::start().queue_empty,
{
    assert(handle.actions.push(action) =~= handle.actions + seq![action]);
    if handle.actions.len() > 0 {
        assert(seq![handle.actions[0]] + handle.actions.drop_first() =~= handle.actions);
    }
}

/// A loop at its start has nothing in it.
pub proof fn new_loop_is_empty(index: Index, at: Nanos)
    ensures
        !IndexState::start().resources.contains_key(index),
        !IndexState::start().timer_queue.contains_key(at),
        IndexState::start().pending_tasks == 0,
        IndexState::start().handle.actions.len() == 0,
{
}

} // verus!
