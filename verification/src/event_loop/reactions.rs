//! What the loop makes of timers, events, sockets and closing resources.

use crate::check::CheckHandle;
use crate::effect::{Effect, EffectView, Failure, Interest};
use crate::event_loop::laws::{lemma_served_requests, token_leads_back};
use crate::event_loop::state::LoopState;
use crate::event_loop::{Event, HandleView, NetworkTarget, Phase, RequestView, RunMode, Turn};
use crate::fs::FsWatcherHandle;
use crate::fs_event::FsEventHandle;
use crate::resource::{is_key, CallbackId, ErrorId, ResourceId, ResourceView, SocketId};
use crate::task::Task;
use crate::tcp_listener::{AcceptOutcome, TcpListener, TcpListenerHandle};
use crate::tcp_stream::{
    read_effects, write_after, write_start, ReadView, SocketStatus, StreamView, TcpEventKind,
    TcpStreamHandle, WriteOutcome,
};
use crate::timers::{expired_before, is_earliest, pending_from, Nanos, Timer, TimerKind};
use crate::tty::TtyHandle;
use vstd::prelude::*;

verus! {

/// A loop at its start is at the start of time, has as many workers as were asked for and
/// nothing else.
pub proof fn new_loop_is_empty(num_threads: usize)
    ensures
        ({
            let start = LoopState::start(num_threads);
            &&& start.now == 0
            &&& start.pool.num_threads == num_threads
            &&& start.pool.pending == 0
            &&& start.handle.requests.len() == 0
            &&& start.handle.queue_empty
            &&& forall|id: ResourceId| !#[trigger] start.resources.contains_key(id)
            &&& forall|at: Nanos| !#[trigger] start.timers.contains_key(at)
            &&& forall|number: i32| !#[trigger] start.signals.contains_key(number)
            &&& start.check_queue.len() == 0
            &&& start.close_queue.len() == 0
            &&& start.accepted.len() == 0
        }),
{
}

/// A timer that fires calls its callback once. One that runs once is then forgotten; one
/// that runs over and over stays as it is and waits for its delay again, behind those that
/// expire at the same instant.
pub proof fn timer_fires_as_its_kind_says(
    state: LoopState,
    id: ResourceId,
    timer: Timer,
    at: Nanos,
)
    requires
        state.resources.contains_key(id),
        state.resources[id] == ResourceView::Timer(timer),
        at == state.now + timer.delay,
    ensures
        ({
            let (after, effects) = state.fired(id);
            let called = EffectView::Plain(Effect::TimerCallback(timer.callback));
            &&& timer.kind == TimerKind::Timeout ==> {
                &&& effects == seq![called, EffectView::Drop(ResourceView::Timer(timer))]
                &&& after.resources == state.resources.remove(id)
                &&& after.links == state.links.remove(timer.id)
                &&& after.timers == state.timers
            }
            &&& timer.kind == TimerKind::Interval ==> {
                &&& effects == seq![called]
                &&& after.resources == state.resources
                &&& after.links == state.links
                &&& state.timers.contains_key(at) ==> after.timers == state.timers.insert(
                    at,
                    state.timers[at] + seq![id],
                )
                &&& !state.timers.contains_key(at) ==> after.timers == state.timers.insert(
                    at,
                    seq![id],
                )
            }
        }),
{
    if state.timers.contains_key(at) {
        assert(state.timers[at].push(id) =~= state.timers[at] + seq![id]);
    }
    let called = EffectView::Plain(Effect::TimerCallback(timer.callback));
    let gone = EffectView::Drop(ResourceView::Timer(timer));
    assert(seq![called].push(gone) =~= seq![called, gone]);
}

/// The expiry of what is no timer in the loop changes nothing and calls nobody.
pub proof fn stale_expiry_is_ignored(state: LoopState, id: ResourceId)
    requires
        !(state.resources.contains_key(id) && state.resources[id] is Timer),
    ensures
        state.fired(id).0 == state,
        state.fired(id).1.len() == 0,
{
}

/// A timer that fires changes nothing of the loop but its own place in it.
pub proof fn fired_timer_leaves_the_rest_alone(state: LoopState, id: ResourceId, other: ResourceId)
    requires
        other != id,
    ensures
        ({
            let after = state.fired(id).0;
            &&& after.resources.contains_key(other) <==> state.resources.contains_key(other)
            &&& state.resources.contains_key(other) ==> after.resources[other]
                == state.resources[other]
            &&& after.now == state.now
            &&& after.issued == state.issued
            &&& after.ttys == state.ttys
            &&& after.check_queue == state.check_queue
            &&& after.close_queue == state.close_queue
            &&& after.accepted == state.accepted
            &&& after.pool == state.pool
            &&& after.signals == state.signals
            &&& after.handle == state.handle
        }),
{
}

/// Timers that expire together fire one after the other, in the order in which they
/// expire.
pub proof fn timers_fire_in_order(
    state: LoopState,
    first: Seq<ResourceId>,
    second: Seq<ResourceId>,
    id: ResourceId,
)
    ensures
        state.fired_all(Seq::empty()) == (state, Seq::<EffectView>::empty()),
        state.fired_all(seq![id]) == state.fired(id),
        ({
            let (middle, effects) = state.fired_all(first);
            let (after, more) = middle.fired_all(second);
            state.fired_all(first + second) == (after, effects + more)
        }),
    decreases second.len(),
{
    let one = seq![id];
    assert(one.drop_last() =~= Seq::<ResourceId>::empty());
    assert(state.fired_all(one.drop_last()) == (state, Seq::<EffectView>::empty()));
    assert(Seq::<EffectView>::empty() + state.fired(id).1 =~= state.fired(id).1);
    if second.len() == 0 {
        assert(first + second =~= first);
        let effects = state.fired_all(first).1;
        assert(effects + Seq::<EffectView>::empty() =~= effects);
    } else {
        let less = second.drop_last();
        timers_fire_in_order(state, first, less, id);
        assert((first + second).drop_last() =~= first + less);
        let (middle, effects) = state.fired_all(first);
        let (before, more) = middle.fired_all(less);
        let last = before.fired(second.last()).1;
        assert(effects + more + last =~= effects + (more + last));
    }
}

/// A check resource is called with a handle to itself, once each time that it is in the
/// queue, and in the order of the queue. Nothing else is called in the check phase.
pub proof fn checks_run_in_order(
    state: LoopState,
    first: Seq<ResourceId>,
    second: Seq<ResourceId>,
    id: ResourceId,
)
    ensures
        state.checked_all(Seq::empty()).len() == 0,
        state.checked_all(first + second) == state.checked_all(first) + state.checked_all(second),
        ({
            let effects = state.checked_all(seq![id]);
            if state.resources.contains_key(id) && state.resources[id] is Check {
                let check = state.resources[id]->Check_0;
                effects == seq![
                    EffectView::Plain(
                        Effect::CheckCallback(check.callback, CheckHandle { id: check.id }),
                    ),
                ]
            } else {
                effects.len() == 0
            }
        }),
    decreases second.len(),
{
    let one = seq![id];
    assert(one.drop_last() =~= Seq::<ResourceId>::empty());
    assert(state.checked_all(one.drop_last()) == Seq::<EffectView>::empty());
    assert(Seq::<EffectView>::empty() + state.checked(id) =~= state.checked(id));
    if second.len() == 0 {
        assert(first + second =~= first);
        let effects = state.checked_all(first);
        assert(effects + Seq::<EffectView>::empty() =~= effects);
    } else {
        let less = second.drop_last();
        checks_run_in_order(state, first, less, id);
        assert((first + second).drop_last() =~= first + less);
        assert(state.checked_all(first + second) =~= state.checked_all(first) + state.checked_all(
            second,
        ));
    }
}

/// A stream that is closed is shut down, its close callback is called, if it has one, and
/// then it is forgotten. Its callback does not run again.
pub proof fn closed_stream_is_forgotten(state: LoopState, id: ResourceId, stream: StreamView)
    requires
        state.resources.contains_key(id),
        state.resources[id] == ResourceView::TcpStream(stream),
    ensures
        ({
            let (after, effects) = state.closed(id);
            let gone = EffectView::Drop(
                ResourceView::TcpStream(StreamView { on_close: None, ..stream }),
            );
            &&& stream.on_close is None ==> effects == seq![
                EffectView::Plain(Effect::Shutdown(stream.socket)),
                gone,
            ]
            &&& stream.on_close is Some ==> effects == seq![
                EffectView::Plain(Effect::Shutdown(stream.socket)),
                EffectView::Plain(Effect::CloseCallback(stream.on_close->0)),
                gone,
            ]
            &&& after.resources == state.resources.remove(id)
            &&& after.links == state.links.remove(stream.id)
        }),
{
}

/// A listener that is closed is forgotten as it is.
pub proof fn closed_listener_is_forgotten(state: LoopState, id: ResourceId, listener: TcpListener)
    requires
        state.resources.contains_key(id),
        state.resources[id] == ResourceView::TcpListener(listener),
    ensures
        ({
            let (after, effects) = state.closed(id);
            &&& effects == seq![EffectView::Drop(ResourceView::TcpListener(listener))]
            &&& after.resources == state.resources.remove(id)
            &&& after.links == state.links.remove(listener.id)
        }),
{
    let gone = EffectView::Drop(ResourceView::TcpListener(listener));
    assert(Seq::<EffectView>::empty().push(gone) =~= seq![gone]);
}

/// Closing a resource changes nothing of the loop but that the resource is gone, and
/// closing what is not there changes nothing at all.
pub proof fn closing_leaves_the_rest_alone(state: LoopState, id: ResourceId, other: ResourceId)
    requires
        other != id,
    ensures
        ({
            let (after, effects) = state.closed(id);
            &&& !after.resources.contains_key(id)
            &&& after.resources.contains_key(other) <==> state.resources.contains_key(other)
            &&& state.resources.contains_key(other) ==> after.resources[other]
                == state.resources[other]
            &&& after.now == state.now
            &&& after.issued == state.issued
            &&& after.ttys == state.ttys
            &&& after.timers == state.timers
            &&& after.check_queue == state.check_queue
            &&& after.close_queue == state.close_queue
            &&& after.accepted == state.accepted
            &&& after.pool == state.pool
            &&& after.signals == state.signals
            &&& after.handle == state.handle
            &&& !state.resources.contains_key(id) ==> after == state && effects.len() == 0
        }),
{
}

/// Resources are closed one after the other, in the order in which they wait.
pub proof fn resources_close_in_order(
    state: LoopState,
    first: Seq<ResourceId>,
    second: Seq<ResourceId>,
    id: ResourceId,
)
    ensures
        state.closed_all(Seq::empty()) == (state, Seq::<EffectView>::empty()),
        state.closed_all(seq![id]) == state.closed(id),
        ({
            let (middle, effects) = state.closed_all(first);
            let (after, more) = middle.closed_all(second);
            state.closed_all(first + second) == (after, effects + more)
        }),
    decreases second.len(),
{
    let one = seq![id];
    assert(one.drop_last() =~= Seq::<ResourceId>::empty());
    assert(state.closed_all(one.drop_last()) == (state, Seq::<EffectView>::empty()));
    assert(Seq::<EffectView>::empty() + state.closed(id).1 =~= state.closed(id).1);
    if second.len() == 0 {
        assert(first + second =~= first);
        let effects = state.closed_all(first).1;
        assert(effects + Seq::<EffectView>::empty() =~= effects);
    } else {
        let less = second.drop_last();
        resources_close_in_order(state, first, less, id);
        assert((first + second).drop_last() =~= first + less);
        let (middle, effects) = state.closed_all(first);
        let (before, more) = middle.closed_all(less);
        let last = before.closed(second.last()).1;
        assert(effects + more + last =~= effects + (more + last));
    }
}

/// The close phase spares every resource that does not wait to be closed.
pub proof fn close_phase_spares_the_others(state: LoopState, other: ResourceId)
    requires
        state.resources.contains_key(other),
        !state.close_queue.contains(other),
    ensures
        state.closes_run().0.resources.contains_key(other),
        state.closes_run().0.resources[other] == state.resources[other],
{
    let start = LoopState { close_queue: Seq::empty(), ..state };
    lemma_not_closed(start, state.close_queue, other);
}

/// What is not among the resources to close stays.
proof fn lemma_not_closed(state: LoopState, ids: Seq<ResourceId>, other: ResourceId)
    requires
        state.resources.contains_key(other),
        !ids.contains(other),
    ensures
        state.closed_all(ids).0.resources.contains_key(other),
        state.closed_all(ids).0.resources[other] == state.resources[other],
    decreases ids.len(),
{
    if ids.len() > 0 {
        let less = ids.drop_last();
        assert forall|i: int| 0 <= i < less.len() implies less[i] != other by {
            assert(ids[i] == less[i]);
        }
        lemma_not_closed(state, less, other);
        assert(ids[ids.len() - 1] != other);
    }
}

/// The close phase closes what waits to be closed, in the order in which it waits.
pub proof fn close_phase_goes_in_order(
    state: LoopState,
    first: Seq<ResourceId>,
    second: Seq<ResourceId>,
)
    requires
        state.close_queue == first + second,
    ensures
        ({
            let start = LoopState { close_queue: Seq::empty(), ..state };
            let (middle, effects) = start.closed_all(first);
            let (after, more) = middle.closed_all(second);
            state.closes_run() == (after, effects + more)
        }),
{
    let start = LoopState { close_queue: Seq::empty(), ..state };
    resources_close_in_order(start, first, second, 0);
}

/// The timers phase fires nothing before its instant has passed: where every timer waits for
/// this instant or a later one, nothing happens.
pub proof fn no_timer_fires_early(state: LoopState)
    requires
        state.timers.dom().finite(),
        forall|at: Nanos| #[trigger] state.timers.contains_key(at) ==> at >= state.now,
    ensures
        state.timers_run() == (state, Seq::<EffectView>::empty()),
{
    let start = LoopState { timers: pending_from(state.timers, state.now), ..state };
    assert(start.timers =~= state.timers);
    assert(!(exists|at: Nanos| #[trigger] is_earliest(state.timers, at) && at < state.now));
}

/// The timers phase fires the timers of an instant that has passed, one after the other, in
/// the order in which they were added, before those of any later instant, and those that
/// wait for this instant or a later one stay as they are.
pub proof fn passed_instants_fire_in_order(state: LoopState, at: Nanos)
    requires
        state.timers.dom().finite(),
        state.timers.contains_key(at),
        at < state.now,
        forall|other: Nanos| #[trigger] state.timers.contains_key(other) ==> at <= other,
    ensures
        ({
            let later = state.timers.remove(at);
            let start = LoopState { timers: pending_from(later, state.now), ..state };
            let (middle, effects) = start.fired_all(state.timers[at]);
            let (after, more) = middle.fired_all(expired_before(later, state.now));
            state.timers_run() == (after, effects + more)
        }),
{
    let later = state.timers.remove(at);
    assert(pending_from(later, state.now) =~= pending_from(state.timers, state.now));
    assert(is_earliest(state.timers, at) && at < state.now);
    let same = choose|same: Nanos| #[trigger]
        is_earliest(state.timers, same) && same < state.now;
    assert(same == at);
    let start = LoopState { timers: pending_from(later, state.now), ..state };
    timers_fire_in_order(start, state.timers[at], expired_before(later, state.now), 0);
}

/// Where there is work and nothing is to be done at once, the poll phase blocks exactly
/// until the instant of the next timer, not at all if that has come, and for as long as it
/// takes if there is no timer.
pub proof fn poll_blocks_until_the_next_timer(state: LoopState, mode: RunMode, at: Nanos)
    requires
        mode != RunMode::NoWait,
        state.pending(),
        state.check_queue.len() == 0,
        state.close_queue.len() == 0,
    ensures
        (forall|other: Nanos| !#[trigger] state.timers.contains_key(other))
            ==> state.poll_timeout(mode) is None,
        state.timers.contains_key(at) && (forall|other: Nanos| #[trigger]
            state.timers.contains_key(other) ==> at <= other) ==> {
            &&& state.poll_timeout(mode) is Some
            &&& at > state.now ==> state.poll_timeout(mode)->0 == at - state.now
            &&& at <= state.now ==> state.poll_timeout(mode)->0 == 0
        },
{
    if state.timers.contains_key(at) && (forall|other: Nanos| #[trigger]
        state.timers.contains_key(other) ==> at <= other) {
        assert(is_earliest(state.timers, at));
    }
}

/// The phases of an iteration follow one another, whatever the mode and however long the
/// polling was to take, and the polling takes as long as the loop says. In the default
/// mode a loop with pending work begins anew.
pub proof fn phases_follow_in_order(state: LoopState, mode: RunMode, timeout: Option<Nanos>)
    ensures
        state.next_phase(mode, Phase::Requests) == Phase::Timers,
        state.next_phase(mode, Phase::Timers) == Phase::Poll(state.poll_timeout(mode)),
        state.next_phase(mode, Phase::Poll(timeout)) == Phase::Check,
        state.next_phase(mode, Phase::Check) == Phase::Close,
        state.pending() ==> state.next_phase(RunMode::Default, Phase::Close) == Phase::Requests,
        !state.pending() ==> state.next_phase(RunMode::Default, Phase::Close) == Phase::Done,
        state.next_phase(RunMode::Once, Phase::Close) == Phase::Done,
        state.next_phase(RunMode::NoWait, Phase::Close) == Phase::Done,
        state.next_phase(mode, Phase::Done) == Phase::Done,
{
}

/// The requests are served at the start of an iteration, after every event, and after the
/// check and the close callbacks; they are not served after the timers, after the polling
/// itself, nor once the loop is done.
pub proof fn requests_have_their_turns(timeout: Option<Nanos>)
    ensures
        Turn::Event.serves(),
        Turn::Phase(Phase::Requests).serves(),
        Turn::Phase(Phase::Check).serves(),
        Turn::Phase(Phase::Close).serves(),
        !Turn::Phase(Phase::Timers).serves(),
        !Turn::Phase(Phase::Poll(timeout)).serves(),
        !Turn::Phase(Phase::Done).serves(),
{
}

/// On machines with 64-bit words, an event of the network is taken where its token is that
/// of a resource that it can be for: one to read for a stream or a listener, one to write
/// for a stream. The report of a worker is taken where a task is pending, unless it names
/// something else than a task. All other events are taken.
pub proof fn events_are_taken_where_they_belong(state: LoopState, event: Event, id: ResourceId)
    requires
        usize::BITS == 64,
        is_key(id),
    ensures
        ({
            let there = state.resources.contains_key(id);
            let resource = state.resources[id];
            let token = id as usize;
            &&& state.accepts(Event::Network(TcpEventKind::Read(token))) <==> there && (
            resource is TcpStream || resource is TcpListener)
            &&& state.accepts(Event::Network(TcpEventKind::Write(token))) <==> there
                && resource is TcpStream
            &&& state.accepts(Event::ThreadPool(id)) <==> state.pool.pending > 0 && (there
                ==> resource is Task)
            &&& event is Watch || event is FsWatch || event is TtyRead || event is Signal
                ==> state.accepts(event)
        }),
{
    token_leads_back(id);
}

/// On machines with 64-bit words, an event of the network is for the resource whose token
/// it has: a stream is read from, or written to, and the connections of a listener are
/// accepted.
pub proof fn network_event_is_for_its_resource(state: LoopState, id: ResourceId)
    requires
        usize::BITS == 64,
        is_key(id),
        state.resources.contains_key(id),
    ensures
        ({
            let token = id as usize;
            &&& state.resources[id] is TcpStream ==> state.network_target(TcpEventKind::Read(token))
                == NetworkTarget::Read(id)
            &&& state.resources[id] is TcpListener ==> state.network_target(
                TcpEventKind::Read(token),
            ) == NetworkTarget::Accept(id)
            &&& state.network_target(TcpEventKind::Write(token)) == NetworkTarget::Write(id)
        }),
{
    token_leads_back(id);
}

/// A task that is finished calls its callback, if it has one, and is then forgotten, without
/// the callback. One task less is pending, also if the one that is reported was canceled, in
/// which case nobody is called.
pub proof fn finished_task_is_forgotten(state: LoopState, id: ResourceId)
    requires
        state.pool.pending > 0,
    ensures
        ({
            let (after, effects) = state.finished(id);
            let live = state.resources.contains_key(id) && state.resources[id] is Task;
            let task = state.resources[id]->Task_0;
            let gone = EffectView::Drop(ResourceView::Task(Task { on_complete: None, ..task }));
            &&& after.pool.pending == state.pool.pending - 1
            &&& after.pool.num_threads == state.pool.num_threads
            &&& live && task.on_complete is Some ==> effects == seq![
                EffectView::Plain(Effect::TaskCallback(task.on_complete->0)),
                gone,
            ]
            &&& live && task.on_complete is None ==> effects == seq![gone]
            &&& live ==> after.resources == state.resources.remove(id) && after.links
                == state.links.remove(task.id)
            &&& !live ==> effects.len() == 0 && after.resources == state.resources && after.links
                == state.links
            &&& after.now == state.now
            &&& after.issued == state.issued
            &&& after.ttys == state.ttys
            &&& after.timers == state.timers
            &&& after.check_queue == state.check_queue
            &&& after.close_queue == state.close_queue
            &&& after.accepted == state.accepted
            &&& after.signals == state.signals
            &&& after.handle == state.handle
        }),
{
}

/// A change that was seen calls the callback of the file-system event resource that it was
/// seen for, with a handle to it, and changes nothing. One for what is no such resource in
/// the loop calls nobody.
pub proof fn fs_event_hears_of_its_change(state: LoopState, id: ResourceId)
    ensures
        ({
            let (after, effects) = state.dispatched(Event::Watch(id));
            let live = state.resources.contains_key(id) && state.resources[id] is FsEvent;
            let fs_event = state.resources[id]->FsEvent_0;
            &&& after == state
            &&& live ==> effects == seq![
                EffectView::Plain(
                    Effect::FsEventCallback(fs_event.callback, FsEventHandle { id: fs_event.id }),
                ),
            ]
            &&& !live ==> effects.len() == 0
        }),
{
}

/// A change that was seen calls the callback of the file-system watcher that it was seen
/// for, with a handle to it, and changes nothing. One for what is no watcher in the loop
/// calls nobody.
pub proof fn watcher_hears_of_its_change(state: LoopState, id: ResourceId)
    ensures
        ({
            let (after, effects) = state.dispatched(Event::FsWatch(id));
            let live = state.resources.contains_key(id) && state.resources[id] is FsWatcher;
            let watcher = state.resources[id]->FsWatcher_0;
            &&& after == state
            &&& live ==> effects == seq![
                EffectView::Plain(
                    Effect::FsWatcherCallback(watcher.callback, FsWatcherHandle { id: watcher.id }),
                ),
            ]
            &&& !live ==> effects.len() == 0
        }),
{
}

/// Input of the terminal calls the callback of the reader that has read it, with a handle to
/// its terminal by which it can be stopped, and changes nothing. Input for what is no reader
/// in the loop calls nobody.
pub proof fn reader_hears_of_its_input(state: LoopState, id: ResourceId)
    ensures
        ({
            let (after, effects) = state.dispatched(Event::TtyRead(id));
            let live = state.resources.contains_key(id) && state.resources[id] is TtyReader;
            let reader = state.resources[id]->TtyReader_0;
            &&& after == state
            &&& live ==> effects == seq![
                EffectView::Plain(
                    Effect::TtyCallback(
                        reader.on_read,
                        TtyHandle { id: reader.tty, stop: Some(reader.stop) },
                    ),
                ),
            ]
            &&& !live ==> effects.len() == 0
        }),
{
}

/// The report of a worker is dealt with as the end of its task. Events of the network and of
/// the signals change nothing by themselves.
pub proof fn other_events_are_dealt_with_elsewhere(
    state: LoopState,
    id: ResourceId,
    event: TcpEventKind,
)
    ensures
        state.dispatched(Event::ThreadPool(id)) == state.finished(id),
        state.dispatched(Event::Network(event)) == (state, Seq::<EffectView>::empty()),
        state.dispatched(Event::Signal) == (state, Seq::<EffectView>::empty()),
{
}

/// A new connection is reported to the callback of its listener, with a handle under the
/// next reference, which is then made up, and its stream waits to join the loop behind those
/// that do, with that reference and that socket, nothing to write and nobody to call. The
/// next connection is asked for.
pub proof fn new_connection_is_reported(
    state: LoopState,
    id: ResourceId,
    listener: TcpListener,
    socket: SocketId,
)
    requires
        state.resources.contains_key(id),
        state.resources[id] == ResourceView::TcpListener(listener),
        state.handle.next_id < u64::MAX,
    ensures
        ({
            let (after, effects, more) = state.connection_accepted(
                id,
                AcceptOutcome::Accepted(socket),
            );
            let shared = state.handle.next_id;
            &&& more
            &&& effects == seq![
                EffectView::Plain(
                    Effect::AcceptCallback(
                        listener.on_connection,
                        TcpListenerHandle { id: listener.id },
                        Ok(TcpStreamHandle { id: shared, socket }),
                    ),
                ),
            ]
            &&& after.handle.next_id == shared + 1
            &&& after.handle.requests == state.handle.requests
            &&& after.handle.queue_empty == state.handle.queue_empty
            &&& after.accepted.len() == state.accepted.len() + 1
            &&& after.accepted.take(state.accepted.len() as int) == state.accepted
            &&& after.accepted.last().id == shared
            &&& after.accepted.last().socket == socket
            &&& after.accepted.last().on_connection is None
            &&& after.accepted.last().on_read is None
            &&& after.accepted.last().on_close is None
            &&& after.accepted.last().write_queue.len() == 0
            &&& after == (LoopState { accepted: after.accepted, handle: after.handle, ..state })
        }),
{
    let after = state.connection_accepted(id, AcceptOutcome::Accepted(socket)).0;
    assert(after.accepted.take(state.accepted.len() as int) =~= state.accepted);
}

/// Where no connection is waiting, accepting ends and nobody is called. Where accepting has
/// failed, it ends too, and the callback of the listener hears of the error. The loop stays
/// as it is.
pub proof fn accepting_ends(state: LoopState, id: ResourceId, listener: TcpListener, error: ErrorId)
    requires
        state.resources.contains_key(id),
        state.resources[id] == ResourceView::TcpListener(listener),
    ensures
        ({
            let (after, effects, more) = state.connection_accepted(id, AcceptOutcome::WouldBlock);
            &&& after == state
            &&& effects.len() == 0
            &&& !more
        }),
        ({
            let (after, effects, more) = state.connection_accepted(
                id,
                AcceptOutcome::Failed(error),
            );
            &&& after == state
            &&& effects == seq![
                EffectView::Plain(
                    Effect::AcceptCallback(
                        listener.on_connection,
                        TcpListenerHandle { id: listener.id },
                        Err(Failure::Reported(error)),
                    ),
                ),
            ]
            &&& !more
        }),
{
}

/// The sockets of the new connections are polled for reading, each under the token of its
/// stream, in the order in which the connections came.
pub proof fn new_connections_are_polled_for_reading(state: LoopState, ids: Seq<ResourceId>, i: int)
    requires
        ids.len() <= state.accepted.len(),
        0 <= i < ids.len(),
    ensures
        ({
            let (after, effects) = state.clients_joined(ids);
            &&& effects.len() == ids.len()
            &&& effects[i] == EffectView::Plain(
                Effect::Register(state.accepted[i].socket, ids[i] as usize, Interest::Readable),
            )
            &&& after.accepted == state.accepted.skip(ids.len() as int)
        }),
    decreases ids.len(),
{
    let less = ids.drop_last();
    lemma_waiting_clients(state, less);
    let before = state.clients_joined(less).0;
    assert(before.accepted[0] == state.accepted[less.len() as int]);
    assert(before.accepted.drop_first() =~= state.accepted.skip(ids.len() as int));
    if i < less.len() {
        new_connections_are_polled_for_reading(state, less, i);
        assert(less[i] == ids[i]);
    }
}

/// The streams that have joined no longer wait, and each has had one effect.
proof fn lemma_waiting_clients(state: LoopState, ids: Seq<ResourceId>)
    requires
        ids.len() <= state.accepted.len(),
    ensures
        state.clients_joined(ids).0.accepted == state.accepted.skip(ids.len() as int),
        state.clients_joined(ids).1.len() == ids.len(),
    decreases ids.len(),
{
    if ids.len() > 0 {
        let less = ids.drop_last();
        lemma_waiting_clients(state, less);
        assert(state.clients_joined(less).0.accepted.drop_first() =~= state.accepted.skip(
            ids.len() as int,
        ));
    } else {
        assert(state.accepted.skip(0) =~= state.accepted);
    }
}

/// Reading from the socket of a stream changes nothing of the loop but that a stream that
/// nobody reads waits to be closed at its end.
pub proof fn reading_changes_no_resource(
    state: LoopState,
    id: ResourceId,
    stream: StreamView,
    progress: ReadView,
)
    requires
        state.resources.contains_key(id),
        state.resources[id] == ResourceView::TcpStream(stream),
    ensures
        ({
            let after = state.stream_read(id, progress).0;
            let closes = stream.on_read is None && progress.eof;
            &&& closes ==> after.close_queue == state.close_queue + seq![id]
            &&& !closes ==> after.close_queue == state.close_queue
            &&& after == (LoopState { close_queue: after.close_queue, ..state })
        }),
{
    assert(state.close_queue.push(id) =~= state.close_queue + seq![id]);
}

/// A read that has failed is heard by the reader of the stream and by nobody else, and
/// the stream is not closed for it.
pub proof fn read_error_reaches_the_reader(
    state: LoopState,
    id: ResourceId,
    stream: StreamView,
    callback: CallbackId,
    progress: ReadView,
    error: ErrorId,
)
    requires
        state.resources.contains_key(id),
        state.resources[id] == ResourceView::TcpStream(stream),
        stream.on_read == Some(callback),
        progress.error == Some(error),
    ensures
        ({
            let (after, effects) = state.stream_read(id, progress);
            &&& after == state
            &&& effects == seq![
                EffectView::ReadCallback(
                    callback,
                    TcpStreamHandle { id: stream.id, socket: stream.socket },
                    Err(Failure::Reported(error)),
                ),
            ]
        }),
{
}

/// The start of writing, and each write, changes nothing of the loop but the stream that
/// is written to and, where its connection has failed, that it waits to be closed.
pub proof fn writing_touches_one_stream(
    state: LoopState,
    id: ResourceId,
    stream: StreamView,
    status: SocketStatus,
    outcome: WriteOutcome,
    other: ResourceId,
)
    requires
        state.resources.contains_key(id),
        state.resources[id] == ResourceView::TcpStream(stream),
    ensures
        ({
            let started = state.stream_write_start(id, status).0;
            let written = state.stream_write(id, outcome).0;
            let closes = status is Failed && stream.on_connection is Some;
            &&& started.resources[id] is TcpStream
            &&& written.resources[id] is TcpStream
            &&& started.resources.dom() == state.resources.dom()
            &&& written.resources.dom() == state.resources.dom()
            &&& other != id && state.resources.contains_key(other) ==> {
                &&& started.resources[other] == state.resources[other]
                &&& written.resources[other] == state.resources[other]
            }
            &&& closes ==> started.close_queue == state.close_queue + seq![id]
            &&& !closes ==> started.close_queue == state.close_queue
            &&& started == (LoopState {
                resources: started.resources,
                close_queue: started.close_queue,
                ..state
            })
            &&& written == (LoopState { resources: written.resources, ..state })
        }),
{
    let started = state.stream_write_start(id, status).0;
    let written = state.stream_write(id, outcome).0;
    assert(started.resources.dom() =~= state.resources.dom());
    assert(written.resources.dom() =~= state.resources.dom());
    assert(state.close_queue.push(id) =~= state.close_queue + seq![id]);
}

/// On a healthy socket the writing of a stream in the loop goes ahead with the whole queue.
pub proof fn healthy_stream_is_written_to(state: LoopState, id: ResourceId, stream: StreamView)
    requires
        state.resources.contains_key(id),
        state.resources[id] == ResourceView::TcpStream(stream),
    ensures
        ({
            let (after, effects, proceeds) = state.stream_write_start(id, SocketStatus::Healthy);
            let started = after.resources[id]->TcpStream_0;
            &&& proceeds
            &&& started.write_queue == stream.write_queue
            &&& started == (StreamView { on_connection: None, ..stream })
            &&& stream.on_connection is None ==> effects.len() == 0 && after.resources
                == state.resources
        }),
{
    assert(state.resources.insert(id, state.resources[id]) =~= state.resources);
}

/// A stream in the loop is read from and written to as the stream says: its effects are
/// those of the stream, and it is left as the stream is.
pub proof fn stream_in_the_loop_acts_as_such(
    state: LoopState,
    id: ResourceId,
    stream: StreamView,
    progress: ReadView,
    status: SocketStatus,
    outcome: WriteOutcome,
)
    requires
        state.resources.contains_key(id),
        state.resources[id] == ResourceView::TcpStream(stream),
    ensures
        state.stream_read(id, progress).1 == read_effects(stream, progress),
        ({
            let (after, effects, proceeds) = state.stream_write_start(id, status);
            let start = write_start(stream, id, status);
            &&& after.resources[id] == ResourceView::TcpStream(start.stream)
            &&& effects == start.effects
            &&& proceeds == start.proceeds
        }),
        ({
            let (after, effects, more) = state.stream_write(id, outcome);
            let (written, reported, goes_on) = write_after(stream, outcome);
            &&& after.resources[id] == ResourceView::TcpStream(written)
            &&& effects == reported
            &&& more == goes_on
        }),
{
}

/// A request goes behind those that wait, the next is taken from the front, and a reference
/// that is made up is the next number. Whether requests wait is always known.
pub proof fn requests_wait_in_line(handle: HandleView, request: RequestView)
    ensures
        handle.queued(request).requests == handle.requests + seq![request],
        !handle.queued(request).queue_empty,
        handle.queued(request).next_id == handle.next_id,
        handle.requests.len() > 0 ==> {
            &&& seq![handle.requests[0]] + handle.received().requests == handle.requests
            &&& handle.received().queue_empty <==> handle.requests.len() == 1
            &&& handle.received().next_id == handle.next_id
        },
        handle.next_id < u64::MAX ==> handle.referenced().next_id == handle.next_id + 1,
        handle.referenced().requests == handle.requests,
        handle.referenced().queue_empty == handle.queue_empty,
{
    assert(handle.requests.push(request) =~= handle.requests + seq![request]);
    if handle.requests.len() > 0 {
        assert(seq![handle.requests[0]] + handle.requests.drop_first() =~= handle.requests);
    }
}

/// Taking the next request off the queue changes nothing else of the loop.
pub proof fn taking_a_request_changes_the_queue_alone(state: LoopState)
    requires
        state.handle.requests.len() > 0,
    ensures
        ({
            let after = state.received();
            &&& after == (LoopState { handle: after.handle, ..state })
            &&& seq![state.handle.requests[0]] + after.handle.requests == state.handle.requests
        }),
{
    requests_wait_in_line(state.handle, state.handle.requests[0]);
}

/// Draining the request queue serves every request, in order, or stops at one that cannot be
/// served, which stays in the queue with those behind it.
pub proof fn draining_stops_only_where_it_must(
    state: LoopState,
    after: LoopState,
    effects: Seq<EffectView>,
    stuck: bool,
)
    requires
        state.wf(),
        state.drains_to(after, effects, stuck),
    ensures
        exists|count: nat|
            count <= state.handle.requests.len() && after.handle.requests
                == #[trigger] state.handle.requests.skip(count as int),
        stuck <==> after.handle.requests.len() > 0,
        stuck ==> !after.servable(after.handle.requests[0]),
{
    let (count, ids) = choose|count: nat, ids: Seq<ResourceId>| #[trigger]
        state.drains_by(count, ids, after, effects, stuck);
    lemma_served_requests(state, count, ids);
    assert(after.handle.requests == state.handle.requests.skip(count as int));
}

} // verus!
