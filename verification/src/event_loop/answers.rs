//! What every request is answered with, in terms of the request alone.

use crate::check::Check;
use crate::effect::{Effect, EffectView, Interest};
use crate::event_loop::state::{listening, LoopState};
use crate::event_loop::RequestView;
use crate::fs::FsWatcher;
use crate::fs_event::FsEvent;
use crate::resource::{
    CallbackId, ResourceId, ResourceKind, ResourceView, SharedId, WorkId, MAX_RESOURCES,
    NULL_ID,
};
use crate::signals::{
    listens, references_unique, stopped_listener_is_taken_out, unlistened, Handlers, Signal,
};
use crate::task::Task;
use crate::tcp_listener::TcpListener;
use crate::tcp_stream::StreamView;
use crate::timers::{Nanos, Timer};
use crate::tty::TtyReader;
use vstd::prelude::*;

verus! {

/// Serving the request of a file-system watcher has one effect: the watch of its
/// path starts, with its mode, on behalf of the resource that is added. The
/// resource is what was asked for, and is marked as watching.
pub proof fn watcher_watches_what_was_asked_for(
    state: LoopState,
    watcher: FsWatcher,
    new: ResourceId,
)
    ensures
        ({
            let (after, effects) = state.served(RequestView::FsWatcherStart(watcher), new);
            &&& effects.len() == 1
            &&& effects[0] == EffectView::Plain(
                Effect::StartWatch(new, watcher.path, watcher.mode),
            )
            &&& after.id_of(watcher.id) == new
            &&& after.resources.contains_key(new)
            &&& after.resources[new] is FsWatcher
            &&& after.resources[new]->FsWatcher_0.id == watcher.id
            &&& after.resources[new]->FsWatcher_0.path == watcher.path
            &&& after.resources[new]->FsWatcher_0.callback == watcher.callback
            &&& after.resources[new]->FsWatcher_0.mode == watcher.mode
            &&& after.resources[new]->FsWatcher_0.watching
        }),
{
}

/// Two watchers that differ in the path or in the mode ask the system for different
/// watches: a recursive watch of a path is not a non-recursive one.
pub proof fn different_watchers_watch_differently(
    state: LoopState,
    first: FsWatcher,
    second: FsWatcher,
    new: ResourceId,
)
    requires
        first.path != second.path || first.mode != second.mode,
    ensures
        state.served(RequestView::FsWatcherStart(first), new).1 != state.served(
            RequestView::FsWatcherStart(second),
            new,
        ).1,
{
    watcher_watches_what_was_asked_for(state, first, new);
    watcher_watches_what_was_asked_for(state, second, new);
}

/// Serving the request of a file-system event resource has one effect: the watch of
/// its path starts, with its mode, on behalf of the resource that is added. The
/// resource is what was asked for, and is marked as watching.
pub proof fn fs_event_watches_what_was_asked_for(
    state: LoopState,
    fs_event: FsEvent,
    new: ResourceId,
)
    ensures
        ({
            let (after, effects) = state.served(RequestView::FsEventStart(fs_event), new);
            &&& effects.len() == 1
            &&& effects[0] == EffectView::Plain(
                Effect::StartWatch(new, fs_event.path, fs_event.mode),
            )
            &&& after.id_of(fs_event.id) == new
            &&& after.resources.contains_key(new)
            &&& after.resources[new] is FsEvent
            &&& after.resources[new]->FsEvent_0.id == fs_event.id
            &&& after.resources[new]->FsEvent_0.path == fs_event.path
            &&& after.resources[new]->FsEvent_0.callback == fs_event.callback
            &&& after.resources[new]->FsEvent_0.mode == fs_event.mode
            &&& after.resources[new]->FsEvent_0.watching
        }),
{
}

/// Starting a timer has no effect but that the timer is in the loop as it was asked
/// for, and is the last of those that expire a delay from now.
pub proof fn timer_waits_for_its_delay(state: LoopState, timer: Timer, new: ResourceId, at: Nanos)
    requires
        at == state.now + timer.delay,
    ensures
        ({
            let (after, effects) = state.served(RequestView::TimerStart(timer), new);
            &&& effects.len() == 0
            &&& after.id_of(timer.id) == new
            &&& after.resources.contains_key(new)
            &&& after.resources[new] == ResourceView::Timer(timer)
            &&& after.timers.contains_key(at)
            &&& state.timers.contains_key(at) ==> after.timers[at] == state.timers[at] + seq![new]
            &&& !state.timers.contains_key(at) ==> after.timers[at] == seq![new]
            &&& forall|other: Nanos|
                other != at ==> (#[trigger] after.timers.contains_key(other)
                    <==> state.timers.contains_key(other))
            &&& forall|other: Nanos|
                other != at && #[trigger] state.timers.contains_key(other) ==> after.timers[other]
                    == state.timers[other]
        }),
{
    if state.timers.contains_key(at) {
        assert(state.timers[at].push(new) =~= state.timers[at] + seq![new]);
    }
}

/// A connection attempt that is served is in the loop as it was asked for, and its
/// socket is polled for writing, under the token of the stream.
pub proof fn connecting_socket_is_polled_for_writing(
    state: LoopState,
    stream: StreamView,
    new: ResourceId,
)
    ensures
        ({
            let (after, effects) = state.served(RequestView::TcpInit(stream), new);
            &&& effects.len() == 1
            &&& effects[0] == EffectView::Plain(
                Effect::Register(stream.socket, new as usize, Interest::Writable),
            )
            &&& after.id_of(stream.id) == new
            &&& after.resources.contains_key(new)
            &&& after.resources[new] == ResourceView::TcpStream(stream)
        }),
{
}

/// A listener that is served is in the loop as it was asked for, and its socket is
/// polled for reading, under the token of the listener.
pub proof fn listening_socket_is_polled_for_reading(
    state: LoopState,
    listener: TcpListener,
    new: ResourceId,
)
    ensures
        ({
            let (after, effects) = state.served(RequestView::TcpListen(listener), new);
            &&& effects.len() == 1
            &&& effects[0] == EffectView::Plain(
                Effect::Register(listener.socket, new as usize, Interest::Readable),
            )
            &&& after.id_of(listener.id) == new
            &&& after.resources.contains_key(new)
            &&& after.resources[new] == ResourceView::TcpListener(listener)
        }),
{
}

/// A write goes behind those that wait already, with its bytes and its callback, and
/// the socket is polled for both reading and writing. Nothing else of the stream
/// changes, and nobody is called.
pub proof fn write_waits_behind_the_others(
    state: LoopState,
    shared: SharedId,
    data: Seq<u8>,
    callback: CallbackId,
    stream: StreamView,
)
    requires
        state.links.contains_key(shared),
        state.resources.contains_key(state.links[shared]),
        state.resources[state.links[shared]] == ResourceView::TcpStream(stream),
    ensures
        ({
            let id = state.links[shared];
            let (after, effects) = state.served(RequestView::TcpWrite(shared, data, callback), 0);
            let written = after.resources[id]->TcpStream_0;
            &&& effects.len() == 1
            &&& effects[0] == EffectView::Plain(
                Effect::Reregister(stream.socket, id as usize, Interest::Both),
            )
            &&& after.resources.contains_key(id)
            &&& after.resources[id] is TcpStream
            &&& written.write_queue == stream.write_queue + seq![(data, callback)]
            &&& written == (StreamView { write_queue: written.write_queue, ..stream })
        }),
{
    assert(stream.write_queue.push((data, callback)) =~= stream.write_queue + seq![
        (data, callback),
    ]);
}

/// A reader takes the place of the former one, which is forgotten, and the socket is
/// polled for reading, and for writing too if something waits to be written. Nothing
/// else of the stream changes.
pub proof fn reader_takes_over(
    state: LoopState,
    shared: SharedId,
    callback: CallbackId,
    stream: StreamView,
)
    requires
        state.links.contains_key(shared),
        state.resources.contains_key(state.links[shared]),
        state.resources[state.links[shared]] == ResourceView::TcpStream(stream),
    ensures
        ({
            let id = state.links[shared];
            let (after, effects) = state.served(RequestView::TcpRead(shared, callback), 0);
            let interest = if stream.write_queue.len() == 0 {
                Interest::Readable
            } else {
                Interest::Both
            };
            let polled = EffectView::Plain(
                Effect::Reregister(stream.socket, id as usize, interest),
            );
            &&& stream.on_read is None ==> effects == seq![polled]
            &&& stream.on_read is Some ==> effects == seq![
                EffectView::Plain(Effect::Release(stream.on_read->0)),
                polled,
            ]
            &&& after.resources.contains_key(id)
            &&& after.resources[id] == ResourceView::TcpStream(
                StreamView { on_read: Some(callback), ..stream },
            )
        }),
{
}

/// A stream that is shut down stays in the loop: the write side of its socket is shut
/// down, the callback of an earlier wish to close it runs, and then that of the
/// shutdown. A shutdown of what is not in the loop forgets its callback.
pub proof fn shutdown_reports_to_its_callback(
    state: LoopState,
    shared: SharedId,
    callback: CallbackId,
    stream: StreamView,
)
    ensures
        ({
            let id = state.links[shared];
            let (after, effects) = state.served(RequestView::TcpShutdown(shared, callback), 0);
            let last = EffectView::Plain(Effect::CloseCallback(callback));
            &&& state.links.contains_key(shared) && state.resources.contains_key(id)
                && state.resources[id] == ResourceView::TcpStream(stream) ==> {
                &&& stream.on_close is None ==> effects == seq![
                    EffectView::Plain(Effect::Shutdown(stream.socket)),
                    last,
                ]
                &&& stream.on_close is Some ==> effects == seq![
                    EffectView::Plain(Effect::Shutdown(stream.socket)),
                    EffectView::Plain(Effect::CloseCallback(stream.on_close->0)),
                    last,
                ]
                &&& after.resources.contains_key(id)
                &&& after.resources[id] == ResourceView::TcpStream(
                    StreamView { on_close: None, ..stream },
                )
            }
            &&& state.wf() && !state.links.contains_key(shared) ==> {
                &&& effects == seq![EffectView::Plain(Effect::Release(callback))]
                &&& after == state
            }
        }),
{
}

/// A stream that is to be closed waits behind the others that are, under the callback
/// of the wish, which takes the place of an earlier one. Nothing else of the stream
/// changes, and nobody is called yet.
pub proof fn closing_stream_waits(
    state: LoopState,
    shared: SharedId,
    callback: CallbackId,
    stream: StreamView,
)
    requires
        state.links.contains_key(shared),
        state.resources.contains_key(state.links[shared]),
        state.resources[state.links[shared]] == ResourceView::TcpStream(stream),
    ensures
        ({
            let id = state.links[shared];
            let (after, effects) = state.served(RequestView::TcpClose(shared, callback), 0);
            &&& stream.on_close is None ==> effects.len() == 0
            &&& stream.on_close is Some ==> effects == seq![
                EffectView::Plain(Effect::Release(stream.on_close->0)),
            ]
            &&& after.close_queue == state.close_queue + seq![id]
            &&& after.resources.contains_key(id)
            &&& after.resources[id] == ResourceView::TcpStream(
                StreamView { on_close: Some(callback), ..stream },
            )
        }),
{
    let id = state.links[shared];
    assert(state.close_queue.push(id) =~= state.close_queue + seq![id]);
}

/// A listener that is to be stopped waits behind the others that are to be closed, under
/// the callback of the wish, which takes the place of an earlier one. Nothing else of
/// the listener changes, and nobody is called yet.
pub proof fn closing_listener_waits(
    state: LoopState,
    shared: SharedId,
    callback: CallbackId,
    listener: TcpListener,
)
    requires
        state.links.contains_key(shared),
        state.resources.contains_key(state.links[shared]),
        state.resources[state.links[shared]] == ResourceView::TcpListener(listener),
    ensures
        ({
            let id = state.links[shared];
            let (after, effects) = state.served(RequestView::TcpListenStop(shared, callback), 0);
            &&& listener.on_close is None ==> effects.len() == 0
            &&& listener.on_close is Some ==> effects == seq![
                EffectView::Plain(Effect::Release(listener.on_close->0)),
            ]
            &&& after.close_queue == state.close_queue + seq![id]
            &&& after.resources.contains_key(id)
            &&& after.resources[id] == ResourceView::TcpListener(
                TcpListener { on_close: Some(callback), ..listener },
            )
        }),
{
    let id = state.links[shared];
    assert(state.close_queue.push(id) =~= state.close_queue + seq![id]);
}

/// A task that is spawned is in the loop as it was asked for, one more task is pending,
/// and its work is handed over, on its behalf and with its channel.
pub proof fn task_is_handed_over_as_asked(
    state: LoopState,
    task: Task,
    work: WorkId,
    new: ResourceId,
)
    requires
        state.pool.pending < usize::MAX,
    ensures
        ({
            let (after, effects) = state.served(RequestView::TaskSpawn(task, work), new);
            &&& effects.len() == 1
            &&& effects[0] == EffectView::Plain(Effect::SpawnWork(new, work, task.cancelation))
            &&& after.pool.pending == state.pool.pending + 1
            &&& after.pool.num_threads == state.pool.num_threads
            &&& after.id_of(task.id) == new
            &&& after.resources.contains_key(new)
            &&& after.resources[new] == ResourceView::Task(task)
        }),
{
}

/// A check resource that is added is in the loop as it was asked for, and runs behind
/// those that are there. Nobody is called yet.
pub proof fn check_runs_behind_the_others(state: LoopState, check: Check, new: ResourceId)
    ensures
        ({
            let (after, effects) = state.served(RequestView::CheckInit(check), new);
            &&& effects.len() == 0
            &&& after.check_queue == state.check_queue + seq![new]
            &&& after.id_of(check.id) == new
            &&& after.resources.contains_key(new)
            &&& after.resources[new] == ResourceView::Check(check)
        }),
{
    assert(state.check_queue.push(new) =~= state.check_queue + seq![new]);
}

/// A terminal reader that is started is in the loop as it was asked for, is the one that
/// closing its terminal stops, and reads until its channel says to stop. The readers of
/// other terminals stay theirs.
pub proof fn terminal_is_read_until_stopped(
    state: LoopState,
    reader: TtyReader,
    new: ResourceId,
    other: SharedId,
)
    ensures
        ({
            let (after, effects) = state.served(RequestView::TtyReadStart(reader), new);
            &&& effects.len() == 1
            &&& effects[0] == EffectView::Plain(Effect::StartTtyRead(new, reader.stop))
            &&& after.reader_of(reader.tty) == new
            &&& other != reader.tty ==> after.reader_of(other) == state.reader_of(other)
            &&& after.id_of(reader.id) == new
            &&& after.resources.contains_key(new)
            &&& after.resources[new] == ResourceView::TtyReader(reader)
        }),
{
}

/// Closing a terminal takes its reader out of the loop and forgets it. A terminal that
/// has no reader in the loop is left alone.
pub proof fn closed_terminal_loses_its_reader(state: LoopState, tty: SharedId)
    requires
        state.wf(),
    ensures
        ({
            let id = state.reader_of(tty);
            let (after, effects) = state.served(RequestView::TtyClose(tty), 0);
            let live = state.resources.contains_key(id) && state.resources[id] is TtyReader;
            &&& live ==> {
                &&& effects == seq![EffectView::Drop(state.resources[id])]
                &&& !after.resources.contains_key(id)
                &&& !after.links.contains_key(state.resources[id].shared_id())
            }
            &&& !live ==> effects.len() == 0 && after == state
        }),
{
}

/// Canceling takes out of the loop what the reference leads to, and forgets exactly it:
/// no callback is called. A reference that leads to nothing cancels nothing.
pub proof fn cancel_forgets_one_resource(state: LoopState, request: RequestView, shared: SharedId)
    requires
        state.wf(),
        request == RequestView::TimerCancel(shared) || request == RequestView::TaskCancel(shared)
            || request == RequestView::CheckRemove(shared) || request == RequestView::FsEventStop(
            shared,
        ) || request == RequestView::FsWatcherStop(shared),
    ensures
        ({
            let (after, effects) = state.served(request, 0);
            let id = state.links[shared];
            &&& state.links.contains_key(shared) ==> {
                &&& effects == seq![EffectView::Drop(state.resources[id])]
                &&& after.resources == state.resources.remove(id)
                &&& after.links == state.links.remove(shared)
            }
            &&& !state.links.contains_key(shared) ==> {
                &&& effects.len() == 0
                &&& after.resources == state.resources
                &&& after.links == state.links
            }
        }),
{
    assert(!state.resources.contains_key(NULL_ID));
}

/// Removing a check resource takes it out of the queue of the check phase, and no other:
/// the others run in the order in which they did.
pub proof fn removed_check_leaves_the_others_in_order(
    state: LoopState,
    shared: SharedId,
    id: ResourceId,
    other: ResourceId,
)
    requires
        state.links.contains_key(shared),
        state.links[shared] == id,
        other != id,
    ensures
        ({
            let removed = RequestView::CheckRemove(shared);
            let queue = state.served(removed, 0).0.check_queue;
            let longer = LoopState { check_queue: state.check_queue.push(other), ..state };
            let doubled = LoopState { check_queue: state.check_queue.push(id), ..state };
            let none = LoopState { check_queue: Seq::empty(), ..state };
            &&& none.served(removed, 0).0.check_queue.len() == 0
            &&& longer.served(removed, 0).0.check_queue == queue + seq![other]
            &&& doubled.served(removed, 0).0.check_queue == queue
        }),
{
    reveal(Seq::filter);
    let keep = |each: ResourceId| each != id;
    let queue = state.check_queue;
    assert(queue.push(other).drop_last() =~= queue);
    assert(queue.push(id).drop_last() =~= queue);
    assert(queue.push(other).filter(keep) =~= queue.filter(keep) + seq![other]);
}

/// Listening to a signal asks the system to report exactly that signal, and puts the
/// listener behind those of the signal. The listeners of other signals stay as they
/// are.
pub proof fn listener_comes_behind_the_others(
    state: LoopState,
    number: i32,
    signal: Signal,
    other: i32,
)
    ensures
        ({
            let (after, effects) = state.served(RequestView::SignalStart(number, signal), 0);
            &&& effects.len() == 1
            &&& effects[0] == EffectView::Plain(Effect::WatchSignal(number))
            &&& after.signals.contains_key(number)
            &&& state.signals.contains_key(number) ==> after.signals[number]
                == state.signals[number] + seq![signal]
            &&& !state.signals.contains_key(number) ==> after.signals[number] == seq![signal]
            &&& other != number ==> (after.signals.contains_key(other)
                <==> state.signals.contains_key(other))
            &&& other != number && state.signals.contains_key(other) ==> after.signals[other]
                == state.signals[other]
        }),
{
    if state.signals.contains_key(number) {
        assert(state.signals[number].push(signal) =~= state.signals[number] + seq![signal]);
    } else {
        assert(Seq::<Signal>::empty().push(signal) =~= seq![signal]);
    }
}

/// A listener that starts and stops leaves the other listeners of its signal, and those
/// of every other signal, as they were, and its callback is forgotten.
pub proof fn stop_undoes_listening(handlers: Handlers, number: i32, signal: Signal, other: i32)
    requires
        references_unique(handlers),
        forall|each: i32| !listens(handlers, each, signal.id),
    ensures
        ({
            let (after, effects) = unlistened(listening(handlers, number, signal), signal.id);
            &&& effects == seq![Effect::Release(signal.callback)]
            &&& after.contains_key(number)
            &&& handlers.contains_key(number) ==> after[number] == handlers[number]
            &&& !handlers.contains_key(number) ==> after[number].len() == 0
            &&& other != number && handlers.contains_key(other) ==> after[other] == handlers[other]
            &&& other != number ==> (after.contains_key(other) <==> handlers.contains_key(other))
        }),
{
    let before = if handlers.contains_key(number) {
        handlers[number]
    } else {
        Seq::empty()
    };
    let with = listening(handlers, number, signal);
    let i = before.len() as int;
    assert(with[number][i] == signal);
    assert forall|j: int| 0 <= j < with[number].len() && j != i implies (
    #[trigger] with[number][j]).id != signal.id by {
        assert(before[j] == with[number][j]);
        assert(!listens(handlers, number, signal.id));
    }
    assert(references_unique(with)) by {
        assert forall|one: i32, two: i32, id: u64|
            listens(with, one, id) && listens(with, two, id)
            implies one == two by {
            lemma_heard_before(handlers, number, signal, one, id);
            lemma_heard_before(handlers, number, signal, two, id);
        }
    }
    stopped_listener_is_taken_out(with, number, i);
    assert(with[number].remove(i) =~= before);
}

/// Whoever listens once a listener was added is that listener or did so before.
proof fn lemma_heard_before(handlers: Handlers, number: i32, signal: Signal, each: i32, id: u64)
    requires
        listens(listening(handlers, number, signal), each, id),
    ensures
        id == signal.id && each == number || listens(handlers, each, id),
{
    let with = listening(handlers, number, signal);
    let k = choose|k: int| 0 <= k < with[each].len() && (#[trigger] with[each][k]).id == id;
    if each == number && k < with[each].len() - 1 {
        assert(handlers[each][k] == with[each][k]);
    } else if each != number {
        assert(handlers[each][k] == with[each][k]);
    }
}

/// Stopping a listener has the effects of taking it out of the listeners, and no others.
pub proof fn stopped_listener_is_forgotten(state: LoopState, number: i32, i: int)
    requires
        state.wf(),
        state.signals.contains_key(number),
        0 <= i < state.signals[number].len(),
        forall|j: int|
            0 <= j < state.signals[number].len() && j != i ==> (
            #[trigger] state.signals[number][j]).id != state.signals[number][i].id,
    ensures
        ({
            let signal = state.signals[number][i];
            let (after, effects) = state.served(RequestView::SignalStop(signal.id), 0);
            &&& effects == seq![EffectView::Plain(Effect::Release(signal.callback))]
            &&& after.signals == state.signals.insert(number, state.signals[number].remove(i))
        }),
{
    stopped_listener_is_taken_out(state.signals, number, i);
}

/// Serving a request touches no resource but the one it adds and the one that its
/// reference leads to: every other stays as it is and can be reached as before.
pub proof fn request_touches_one_resource(
    state: LoopState,
    request: RequestView,
    new: ResourceId,
    other: ResourceId,
)
    requires
        state.wf(),
        state.admits(request),
        request.resource() is Some ==> state.available(new),
        state.resources.contains_key(other),
        match request {
            RequestView::TimerCancel(shared) | RequestView::TcpWrite(shared, _, _)
            | RequestView::TcpRead(shared, _) | RequestView::TcpShutdown(shared, _)
            | RequestView::TcpClose(shared, _) | RequestView::TcpListenStop(shared, _)
            | RequestView::TaskCancel(shared) | RequestView::CheckRemove(shared)
            | RequestView::FsEventStop(shared) | RequestView::FsWatcherStop(shared)
                => state.resources[other].shared_id() != shared,
            RequestView::TtyClose(tty) => state.reader_of(tty) != other,
            _ => true,
        },
    ensures
        ({
            let after = state.served(request, new).0;
            &&& after.resources.contains_key(other)
            &&& after.resources[other] == state.resources[other]
            &&& after.id_of(state.resources[other].shared_id()) == other
        }),
{
    assert(state.links.contains_key(state.resources[other].shared_id()));
}

/// Serving a request brings no resource into the loop but the one it adds.
pub proof fn request_adds_no_other_resource(
    state: LoopState,
    request: RequestView,
    new: ResourceId,
    other: ResourceId,
)
    requires
        state.servable(request),
        state.served(request, new).0.resources.contains_key(other),
    ensures
        state.resources.contains_key(other) || other == new && request.resource() is Some,
{
}

/// Serving a request changes nothing of the loop but the resources and what the request
/// is about: only timers are scheduled, only check resources run in the check phase, only
/// streams and listeners are closed, only tasks are pending, only signals have listeners
/// and only terminals have readers. The time, the requests that wait and the connections
/// that wait stay as they are.
pub proof fn request_leaves_the_rest_alone(
    state: LoopState,
    request: RequestView,
    new: ResourceId,
)
    ensures
        ({
            let after = state.served(request, new).0;
            &&& after.now == state.now
            &&& after.accepted == state.accepted
            &&& after.handle == state.handle
            &&& !(request is TimerStart) ==> after.timers == state.timers
            &&& !(request is CheckInit || request is CheckRemove) ==> after.check_queue
                == state.check_queue
            &&& !(request is TcpClose || request is TcpListenStop) ==> after.close_queue
                == state.close_queue
            &&& !(request is TaskSpawn) ==> after.pool == state.pool
            &&& !(request is SignalStart || request is SignalStop) ==> after.signals
                == state.signals
            &&& !(request is TtyReadStart) ==> after.ttys == state.ttys
            &&& request is SignalStart || request is SignalStop ==> after.resources
                == state.resources && after.links == state.links && after.issued == state.issued
            &&& after.issued == state.issued || after.issued == state.issued.insert(new)
        }),
{
}

/// A request that starts something can be served wherever there is room for one more
/// resource, and one that ends something, or is about a signal or a shutdown, at any time.
/// What is to be written, read or closed must be a stream in the loop, and what is to be
/// stopped from listening a listener.
pub proof fn request_is_served_where_it_can_be(state: LoopState, request: RequestView)
    ensures
        request is TimerStart || request is TcpInit || request is TcpListen || request is CheckInit
            || request is FsEventStart || request is FsWatcherStart || request is TtyReadStart ==> (
        state.servable(request) <==> state.resources.len() < MAX_RESOURCES),
        request is TaskSpawn ==> (state.servable(request) <==> state.resources.len()
            < MAX_RESOURCES && state.pool.pending < usize::MAX),
        request is TimerCancel || request is TcpShutdown || request is TaskCancel
            || request is CheckRemove || request is FsEventStop || request is FsWatcherStop
            || request is SignalStart || request is SignalStop || request is TtyClose
            ==> state.servable(request),
        forall|shared: SharedId, data: Seq<u8>, callback: CallbackId| #[trigger]
            state.servable(RequestView::TcpWrite(shared, data, callback)) <==> state.holds(
                state.id_of(shared),
                ResourceKind::TcpStream,
            ),
        forall|shared: SharedId, callback: CallbackId| #[trigger]
            state.servable(RequestView::TcpRead(shared, callback)) <==> state.holds(
                state.id_of(shared),
                ResourceKind::TcpStream,
            ),
        forall|shared: SharedId, callback: CallbackId| #[trigger]
            state.servable(RequestView::TcpClose(shared, callback)) <==> state.holds(
                state.id_of(shared),
                ResourceKind::TcpStream,
            ),
        forall|shared: SharedId, callback: CallbackId| #[trigger]
            state.servable(RequestView::TcpListenStop(shared, callback)) <==> state.holds(
                state.id_of(shared),
                ResourceKind::TcpListener,
            ),
{
}

/// A reference leads to what it is linked to and to nothing else, and a resource is of
/// the kind that it is.
pub proof fn references_lead_to_their_resources(state: LoopState, id: ResourceId)
    requires
        state.wf(),
        state.resources.contains_key(id),
    ensures
        ({
            let resource = state.resources[id];
            &&& resource matches ResourceView::Timer(timer) ==> state.id_of(timer.id) == id
                && state.holds(id, ResourceKind::Timer)
            &&& resource matches ResourceView::TcpStream(stream) ==> state.id_of(stream.id) == id
                && state.holds(id, ResourceKind::TcpStream)
            &&& resource matches ResourceView::TcpListener(listener) ==> state.id_of(listener.id)
                == id && state.holds(id, ResourceKind::TcpListener)
            &&& resource matches ResourceView::Task(task) ==> state.id_of(task.id) == id
                && state.holds(id, ResourceKind::Task)
            &&& resource matches ResourceView::Check(check) ==> state.id_of(check.id) == id
                && state.holds(id, ResourceKind::Check)
            &&& resource matches ResourceView::FsEvent(fs_event) ==> state.id_of(fs_event.id) == id
                && state.holds(id, ResourceKind::FsEvent)
            &&& resource matches ResourceView::FsWatcher(watcher) ==> state.id_of(watcher.id) == id
                && state.holds(id, ResourceKind::FsWatcher)
            &&& resource matches ResourceView::TtyReader(reader) ==> state.id_of(reader.id) == id
                && state.holds(id, ResourceKind::TtyReader)
        }),
{
}

} // verus!
